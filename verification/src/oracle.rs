use vstd::prelude::*;

use crate::hash::bytes_dup;
use crate::hash::bytes_eq;

verus! {

/// Milliseconds since the epoch, as the ledger reports time.
pub type POSIXTime = i64;

/// The oracle's trusted signing key hash.
pub type PubKeyHash = crate::hash::Hash<28>;

/// A minting policy identifier as raw bytes.
pub type CurrencySymbol = Vec<u8>;

/// An asset name as raw bytes.
pub type TokenName = Vec<u8>;

/// The big-endian value of a byte string.
pub open spec fn be_val(s: Seq<u8>) -> nat
    decreases s.len(),
{
    if s.len() == 0 {
        0
    } else {
        be_val(s.drop_last()) * 256 + (s.last() as nat)
    }
}

/// An arbitrary-precision integer in canonical form: a sign and a
/// big-endian magnitude without leading zeroes (and never a negative
/// zero). Plutus datum integers decode into this form.
#[derive(Debug)]
pub struct BigInt {
    pub negative: bool,
    pub magnitude: Vec<u8>,
}

impl BigInt {
    /// Canonical form.
    pub open spec fn wf(&self) -> bool {
        &&& (self.magnitude@.len() > 0 ==> self.magnitude@.first() != 0)
        &&& (self.negative ==> self.magnitude@.len() > 0)
    }

    /// The mathematical value.
    pub open spec fn value(&self) -> int {
        if self.negative {
            -(be_val(self.magnitude@) as int)
        } else {
            be_val(self.magnitude@) as int
        }
    }

    /// Structural equality of two canonical integers.
    pub open spec fn same_as(&self, other: &BigInt) -> bool {
        self.negative == other.negative && self.magnitude@ == other.magnitude@
    }

    /// The canonical form of a non-negative machine integer.
    #[verifier::loop_isolation(false)]
    pub fn from_u64(x: u64) -> (r: BigInt)
        ensures
            r.wf(),
            !r.negative,
            r.value() == x as int,
    {
        let mut magnitude: Vec<u8> = Vec::new();
        let mut shift: u32 = 64;
        while shift > 0
            invariant
                shift % 8 == 0,
                shift <= 64,
                magnitude@.len() > 0 ==> magnitude@.first() != 0,
                shift < 64 ==> be_val(magnitude@) == (x >> shift) as nat,
                shift == 64 ==> magnitude@.len() == 0,
            decreases shift,
        {
            let ghost old_mag = magnitude@;
            let ghost old_shift = shift;
            shift = shift - 8;
            let byte: u8 = ((x >> shift) & 0xff) as u8;
            proof {
                let s2 = shift;
                assert((x >> s2) == ((x >> (s2 + 8)) * 256 + ((x >> s2) & 0xff)) || s2 > 56)
                    by (bit_vector);
                assert(((x >> s2) & 0xff) < 256) by (bit_vector);
                if old_shift == 64 {
                    assert(x >> 64 == 0) by (bit_vector);
                    assert(s2 == 56);
                    assert((x >> 56u32) == ((x >> 64u32) * 256 + ((x >> 56u32) & 0xff)) || 56u32
                        > 56) by (bit_vector);
                }
            }
            if magnitude.len() > 0 || byte != 0 {
                magnitude.push(byte);
                proof {
                    assert(magnitude@.drop_last() =~= old_mag);
                    assert(magnitude@.last() == byte);
                    assert(be_val(magnitude@) == be_val(old_mag) * 256 + (byte as nat));
                    assert((byte as nat) == ((x >> shift) & 0xff) as nat);
                    assert(be_val(old_mag) == (x >> old_shift) as nat);
                    assert((x >> shift) as nat == ((x >> old_shift) as nat) * 256 + (((x >> shift)
                        & 0xff) as nat));
                }
            } else {
                proof {
                    assert((x >> old_shift) as nat == 0);
                    assert((x >> shift) as nat == (((x >> shift) & 0xff) as nat));
                    assert(((x >> shift) & 0xff) as nat == 0);
                }
            }
            proof {
                assert(be_val(magnitude@) == (x >> shift) as nat);
            }
        }
        proof {
            assert(x >> 0 == x) by (bit_vector);
        }
        BigInt { negative: false, magnitude }
    }

    /// The canonical form of a signed machine integer.
    pub fn from_i64(x: i64) -> (r: BigInt)
        ensures
            r.wf(),
            r.value() == x as int,
    {
        if x >= 0 {
            BigInt::from_u64(x as u64)
        } else {
            let magnitude_val: u64 = if x == i64::MIN {
                9223372036854775808
            } else {
                (-x) as u64
            };
            let m = BigInt::from_u64(magnitude_val);
            proof {
                assert(be_val(m.magnitude@) > 0);
            }
            BigInt { negative: true, magnitude: m.magnitude }
        }
    }
}

/// A leading zero byte does not change the value.
pub proof fn lemma_be_val_skip_zero(s: Seq<u8>)
    requires
        s.len() > 0,
        s.first() == 0,
    ensures
        be_val(s) == be_val(s.subrange(1, s.len() as int)),
    decreases s.len(),
{
    if s.len() == 1 {
        assert(s.subrange(1, 1) =~= Seq::<u8>::empty());
        assert(s.drop_last() =~= Seq::<u8>::empty());
        assert(be_val(s) == be_val(s.drop_last()) * 256 + (s.last() as nat));
    } else {
        lemma_be_val_skip_zero(s.drop_last());
        assert(s.drop_last().subrange(1, s.drop_last().len() as int) =~= s.subrange(
            1,
            s.len() as int,
        ).drop_last());
        assert(s.subrange(1, s.len() as int).last() == s.last());
    }
}

/// Strip leading zero bytes, keeping the value.
#[verifier::loop_isolation(false)]
pub fn strip_leading_zeros(v: &Vec<u8>) -> (r: Vec<u8>)
    ensures
        r@.len() > 0 ==> r@.first() != 0,
        be_val(r@) == be_val(v@),
{
    let mut i: usize = 0;
    let n: usize = v.len();
    proof {
        assert(v@.subrange(0, n as int) =~= v@);
    }
    while i < n && v[i] == 0
        invariant
            0 <= i <= n,
            n == v@.len(),
            be_val(v@.subrange(i as int, n as int)) == be_val(v@),
        decreases n - i,
    {
        proof {
            lemma_be_val_skip_zero(v@.subrange(i as int, n as int));
            assert(v@.subrange(i as int, n as int).subrange(
                1,
                v@.subrange(i as int, n as int).len() as int,
            ) =~= v@.subrange(i + 1, n as int));
        }
        i = i + 1;
    }
    let mut r: Vec<u8> = Vec::new();
    let mut j: usize = i;
    while j < n
        invariant
            i <= n,
            n == v@.len(),
            i <= j <= n,
            r@.len() == j - i,
            forall|k: int| 0 <= k < r@.len() ==> r@[k] == v@[i + k],
            i < n ==> v@[i as int] != 0,
        decreases n - j,
    {
        r.push(v[j]);
        j = j + 1;
    }
    proof {
        assert(r@ =~= v@.subrange(i as int, n as int));
    }
    r
}

/// Add one to a big-endian byte string.
pub fn increment_be(v: &Vec<u8>) -> (r: Vec<u8>)
    requires
        v@.len() > 0 ==> v@.first() != 0,
    ensures
        be_val(r@) == be_val(v@) + 1,
        r@.len() > 0,
        r@.first() != 0,
    decreases v@.len(),
{
    let n: usize = v.len();
    if n == 0 {
        let mut r: Vec<u8> = Vec::new();
        r.push(1);
        proof {
            assert(r@.drop_last() =~= Seq::<u8>::empty());
            assert(be_val(Seq::<u8>::empty()) == 0);
            assert(r@.last() == 1);
            assert(be_val(r@) == be_val(r@.drop_last()) * 256 + (r@.last() as nat));
        }
        return r;
    }
    let last = v[n - 1];
    if last < 255 {
        let mut r = bytes_dup(v);
        r.set(n - 1, last + 1);
        proof {
            assert(r@.drop_last() =~= v@.drop_last());
            assert(r@.last() == v@.last() + 1);
            assert(be_val(r@) == be_val(v@.drop_last()) * 256 + v@.last() + 1);
            assert(r@.first() != 0) by {
                if n == 1 {
                } else {
                    assert(r@.first() == v@.first());
                }
            }
        }
        return r;
    }
    let mut prefix: Vec<u8> = Vec::new();
    let mut j: usize = 0;
    while j < n - 1
        invariant
            0 <= j <= n - 1,
            n == v@.len(),
            prefix@.len() == j,
            forall|k: int| 0 <= k < j ==> prefix@[k] == v@[k],
        decreases n - 1 - j,
    {
        prefix.push(v[j]);
        j = j + 1;
    }
    proof {
        assert(prefix@ =~= v@.drop_last());
    }
    let mut r = increment_be(&prefix);
    let ghost rpre = r@;
    r.push(0);
    proof {
        assert(r@.drop_last() =~= rpre);
        assert(r@.last() == 0);
        assert(be_val(r@) == be_val(rpre) * 256);
        assert(be_val(rpre) == be_val(v@.drop_last()) + 1);
        assert(be_val(v@) == be_val(v@.drop_last()) * 256 + 255);
        assert(r@.first() == rpre.first());
    }
    r
}

/// An exchange rate as a ratio of two integers.
#[derive(Debug)]
pub struct Rational {
    pub numerator: BigInt,
    pub denominator: BigInt,
}

impl Rational {
    /// Canonical components.
    pub open spec fn wf(&self) -> bool {
        self.numerator.wf() && self.denominator.wf()
    }

    /// A ratio of two machine integers.
    pub fn new(numerator: i64, denominator: i64) -> (r: Rational)
        ensures
            r.wf(),
            r.numerator.value() == numerator as int,
            r.denominator.value() == denominator as int,
    {
        Rational {
            numerator: BigInt::from_i64(numerator),
            denominator: BigInt::from_i64(denominator),
        }
    }
}

/// The fields of a fixed-token asset class: one concrete asset.
#[derive(Debug)]
pub struct FixedTokenExtendedAssetClassFields {
    pub symbol: CurrencySymbol,
    pub name: TokenName,
}

/// The base asset the oracle prices: any token of a policy, or one
/// fixed token.
#[derive(Debug)]
pub enum ExtendedAssetClass {
    AnyToken(CurrencySymbol),
    FixedToken(FixedTokenExtendedAssetClassFields),
}

/// Lower and upper bounds the published rate is clamped to.
#[derive(Debug)]
pub struct HardCaps {
    pub low_cap: Rational,
    pub high_cap: Rational,
}

impl HardCaps {
    pub open spec fn wf(&self) -> bool {
        self.low_cap.wf() && self.high_cap.wf()
    }
}

/// The tagged optional of the datum encoding. A value that may be
/// absent from the datum altogether is an `Option<Optional<T>>`.
#[derive(Debug)]
pub enum Optional<T> {
    Present(T),
    Absent,
}

/// One published oracle price, as carried by the datum of an oracle
/// output.
#[derive(Debug)]
pub struct OracleDatum {
    pub trusted_public_key_hash: PubKeyHash,
    pub base_asset: ExtendedAssetClass,
    pub exchange_rate: Rational,
    pub exchange_rate_date: POSIXTime,
    pub prices_time_out: POSIXTime,
    pub hard_caps: Option<Optional<HardCaps>>,
}

impl OracleDatum {
    /// Every component is canonical and every hash full-length.
    pub open spec fn wf(&self) -> bool {
        &&& self.trusted_public_key_hash.wf()
        &&& self.exchange_rate.wf()
        &&& match self.hard_caps {
            Some(Optional::Present(ref caps)) => caps.wf(),
            _ => true,
        }
    }
}

/// Powers of 256, for bounding big-endian accumulation.
pub open spec fn pow256(n: int) -> int
    decreases n,
{
    if n <= 0 {
        1
    } else {
        256 * pow256(n - 1)
    }
}

proof fn lemma_pow256_le(a: int, b: int)
    requires
        0 <= a <= b,
    ensures
        pow256(a) <= pow256(b),
        pow256(a) >= 1,
    decreases b,
{
    if b > 0 {
        if a == b {
            if a > 0 {
                lemma_pow256_le(a - 1, b - 1);
            }
        } else {
            lemma_pow256_le(a, b - 1);
        }
    }
}

/// A byte string's value is bounded by the power of its length.
pub proof fn lemma_be_val_bound(s: Seq<u8>)
    ensures
        be_val(s) < pow256(s.len() as int),
    decreases s.len(),
{
    if s.len() > 0 {
        lemma_be_val_bound(s.drop_last());
    }
}

/// The head of the data item at `pos`: its major type, its argument
/// (immediate, or big-endian over the next one, two, four or eight
/// bytes), and the position just past the head. The reserved
/// additional-information values, the break byte, and a truncated
/// argument give nothing.
pub open spec fn spec_head(s: Seq<u8>, pos: int) -> Option<(u8, u64, int)> {
    if !(0 <= pos < s.len()) {
        None
    } else {
        let b = s[pos];
        let major = b / 32;
        let ai = b % 32;
        if ai < 24 {
            Some((major, ai as u64, pos + 1))
        } else if ai <= 27 {
            let nb: int = if ai == 24 {
                1
            } else if ai == 25 {
                2
            } else if ai == 26 {
                4
            } else {
                8
            };
            if pos + 1 + nb <= s.len() {
                Some((major, be_val(s.subrange(pos + 1, pos + 1 + nb)) as u64, pos + 1 + nb))
            } else {
                None
            }
        } else {
            None
        }
    }
}

/// Read one byte.
fn read_u8(bytes: &Vec<u8>, pos: usize) -> (r: Option<(u8, usize)>)
    ensures
        match r {
            Some((b, p2)) => pos < bytes@.len() && b == bytes@[pos as int] && p2 == pos + 1,
            None => pos >= bytes@.len(),
        },
{
    if pos < bytes.len() {
        Some((bytes[pos], pos + 1))
    } else {
        None
    }
}

/// Decode one data-item head; see [`spec_head`].
#[verifier::loop_isolation(false)]
fn decode_head(bytes: &Vec<u8>, pos: usize) -> (r: Option<(u8, u64, usize)>)
    ensures
        ({
            let sh = spec_head(bytes@, pos as int);
            match (r, sh) {
                (Some((major, value, p2)), Some((m2, v2, q2))) => major == m2 && value == v2 && p2
                    == q2 && pos < p2 <= bytes@.len(),
                (None, None) => true,
                _ => false,
            }
        }),
{
    let (b, p1) = match read_u8(bytes, pos) {
        Some(x) => x,
        None => {
            return None;
        },
    };
    let major = b / 32;
    let ai = b % 32;
    if ai < 24 {
        return Some((major, ai as u64, p1));
    }
    if ai > 27 {
        return None;
    }
    let nbytes: usize = if ai == 24 {
        1
    } else if ai == 25 {
        2
    } else if ai == 26 {
        4
    } else {
        8
    };
    if bytes.len() - p1 < nbytes {
        return None;
    }
    let mut value: u64 = 0;
    let mut i: usize = 0;
    while i < nbytes
        invariant
            0 <= i <= nbytes,
            (value as nat) == be_val(bytes@.subrange(p1 as int, p1 + i)),
            (value as int) < pow256(i as int),
        decreases nbytes - i,
    {
        let b2 = bytes[p1 + i];
        proof {
            lemma_pow256_le(i as int, 7);
            assert(pow256(0) == 1);
            assert(pow256(1) == 256);
            assert(pow256(2) == 0x10000);
            assert(pow256(3) == 0x1000000);
            assert(pow256(4) == 0x100000000);
            assert(pow256(5) == 0x10000000000);
            assert(pow256(6) == 0x1000000000000);
            assert(pow256(7) == 0x100000000000000);
            assert((value as int) * 256 + (b2 as int) < pow256(i + 1));
            assert(bytes@.subrange(p1 as int, p1 + i + 1).drop_last() =~= bytes@.subrange(
                p1 as int,
                p1 + i,
            ));
            assert(bytes@.subrange(p1 as int, p1 + i + 1).last() == bytes@[p1 + i]);
        }
        value = value * 256 + (b2 as u64);
        i = i + 1;
    }
    proof {
        lemma_be_val_bound(bytes@.subrange(p1 as int, p1 + nbytes));
        lemma_pow256_le(nbytes as int, 8);
        assert(pow256(8) == 0x10000000000000000) by {
            assert(pow256(0) == 1);
            assert(pow256(1) == 256);
            assert(pow256(2) == 0x10000);
            assert(pow256(3) == 0x1000000);
            assert(pow256(4) == 0x100000000);
            assert(pow256(5) == 0x10000000000);
            assert(pow256(6) == 0x1000000000000);
            assert(pow256(7) == 0x100000000000000);
        }
    }
    Some((major, value, p1 + nbytes))
}

/// The byte string at `pos`: a major-type-2 head whose argument-many
/// content bytes all lie within the input.
pub open spec fn spec_bytes(s: Seq<u8>, pos: int) -> Option<(Seq<u8>, int)> {
    match spec_head(s, pos) {
        Some((m, len, q)) => if m == 2 && q + len <= s.len() {
            Some((s.subrange(q, q + len), q + len))
        } else {
            None
        },
        None => None,
    }
}

/// The integer at `pos`, of any size: an unsigned or negative head, or
/// a non-empty big-integer byte string under tag 2 (the value) or
/// tag 3 (`-1 - value`).
pub open spec fn spec_bigint_val(s: Seq<u8>, pos: int) -> Option<(int, int)> {
    match spec_head(s, pos) {
        Some((m, v, q)) => if m == 0 {
            Some((v as int, q))
        } else if m == 1 {
            Some((-1 - (v as int), q))
        } else if m == 6 && v == 2 {
            match spec_bytes(s, q) {
                Some((b, p2)) => if b.len() > 0 {
                    Some((be_val(b) as int, p2))
                } else {
                    None
                },
                None => None,
            }
        } else if m == 6 && v == 3 {
            match spec_bytes(s, q) {
                Some((b, p2)) => if b.len() > 0 {
                    Some((-1 - (be_val(b) as int), p2))
                } else {
                    None
                },
                None => None,
            }
        } else {
            None
        },
        None => None,
    }
}

/// The machine-width signed integer at `pos`.
pub open spec fn spec_i64_at(s: Seq<u8>, pos: int) -> Option<(i64, int)> {
    match spec_head(s, pos) {
        Some((m, v, q)) => if m == 0 && v <= i64::MAX as u64 {
            Some((v as i64, q))
        } else if m == 1 && v <= i64::MAX as u64 {
            Some(((-1 - (v as int)) as i64, q))
        } else {
            None
        },
        None => None,
    }
}

/// The constructor tag at `pos`: major type 6 with value 121 or 122.
pub open spec fn spec_constr_tag_at(s: Seq<u8>, pos: int) -> Option<(u64, int)> {
    match spec_head(s, pos) {
        Some((m, v, q)) => if m == 6 && (v == 121 || v == 122) {
            Some((v, q))
        } else {
            None
        },
        None => None,
    }
}

/// The ratio `[ numerator, denominator ]` at `pos`, as values.
pub open spec fn spec_rational_at(s: Seq<u8>, pos: int) -> Option<(int, int, int)> {
    if !(0 <= pos < s.len() && s[pos] == 0x9f) {
        None
    } else {
        match spec_bigint_val(s, pos + 1) {
            Some((nv, p2)) => match spec_bigint_val(s, p2) {
                Some((dv, p3)) => if 0 <= p3 < s.len() && s[p3] == 0xff {
                    Some((nv, dv, p3 + 1))
                } else {
                    None
                },
                None => None,
            },
            None => None,
        }
    }
}

/// Mathematical value of an [`ExtendedAssetClass`].
#[verifier::ext_equal]
pub enum AssetClassS {
    Any(Seq<u8>),
    Fixed(Seq<u8>, Seq<u8>),
}

/// The tagged asset-class sum at `pos`.
pub open spec fn spec_asset_class_at(s: Seq<u8>, pos: int) -> Option<(AssetClassS, int)> {
    match spec_constr_tag_at(s, pos) {
        Some((tag, q)) => if !(0 <= q < s.len() && s[q] == 0x9f) {
            None
        } else if tag == 121 {
            match spec_bytes(s, q + 1) {
                Some((sym, p3)) => if 0 <= p3 < s.len() && s[p3] == 0xff {
                    Some((AssetClassS::Any(sym), p3 + 1))
                } else {
                    None
                },
                None => None,
            }
        } else {
            if !(0 <= q + 1 < s.len() && s[q + 1] == 0x9f) {
                None
            } else {
                match spec_bytes(s, q + 2) {
                    Some((sym, p4)) => match spec_bytes(s, p4) {
                        Some((name, p5)) => if 0 <= p5 < s.len() && s[p5] == 0xff && 0 <= p5 + 1
                            < s.len() && s[p5 + 1] == 0xff {
                            Some((AssetClassS::Fixed(sym, name), p5 + 2))
                        } else {
                            None
                        },
                        None => None,
                    },
                    None => None,
                }
            }
        },
        None => None,
    }
}

/// The caps pair `[ low, high ]` at `pos`, as rational values.
pub open spec fn spec_hardcaps_at(s: Seq<u8>, pos: int) -> Option<(int, int, int, int, int)> {
    if !(0 <= pos < s.len() && s[pos] == 0x9f) {
        None
    } else {
        match spec_rational_at(s, pos + 1) {
            Some((ln, ld, p2)) => match spec_rational_at(s, p2) {
                Some((hn, hd, p3)) => if 0 <= p3 < s.len() && s[p3] == 0xff {
                    Some((ln, ld, hn, hd, p3 + 1))
                } else {
                    None
                },
                None => None,
            },
            None => None,
        }
    }
}

/// Mathematical value of an [`OracleDatum`]: the caps slot is `None`
/// when absent from the product, `Some(None)` for the explicit tagged
/// absence, `Some(Some(values))` when present.
#[verifier::ext_equal]
pub struct OracleDatumS {
    pub pkh: Seq<u8>,
    pub base: AssetClassS,
    pub rate_num: int,
    pub rate_den: int,
    pub date: i64,
    pub timeout: i64,
    pub caps: Option<Option<(int, int, int, int)>>,
}

/// The whole datum grammar: the constructor product at position zero,
/// consuming the input exactly.
pub open spec fn spec_datum(s: Seq<u8>) -> Option<OracleDatumS> {
    if !(0 < s.len() && s[0] == 0x9f) {
        None
    } else {
        match spec_bytes(s, 1) {
            Some((pkh, p2)) => if pkh.len() != 28 {
                None
            } else {
                match spec_asset_class_at(s, p2) {
                    Some((base, p3)) => match spec_rational_at(s, p3) {
                        Some((rate_num, rate_den, p4)) => match spec_i64_at(s, p4) {
                            Some((date, p5)) => match spec_i64_at(s, p5) {
                                Some((timeout, p6)) => {
                                    let capsres: Option<(Option<Option<(int, int, int, int)>>, int)> =
                                        if 0 <= p6 < s.len() && s[p6] == 0xff {
                                        Some((None, p6))
                                    } else {
                                        match spec_constr_tag_at(s, p6) {
                                            Some((tag, q1)) => if !(0 <= q1 < s.len() && s[q1]
                                                == 0x9f) {
                                                None
                                            } else if tag == 121 {
                                                match spec_hardcaps_at(s, q1 + 1) {
                                                    Some((ln, ld, hn, hd, q3)) => if 0 <= q3
                                                        < s.len() && s[q3] == 0xff {
                                                        Some((Some(Some((ln, ld, hn, hd))), q3 + 1))
                                                    } else {
                                                        None
                                                    },
                                                    None => None,
                                                }
                                            } else {
                                                if 0 <= q1 + 1 < s.len() && s[q1 + 1] == 0xff {
                                                    Some((Some(None), q1 + 2))
                                                } else {
                                                    None
                                                }
                                            },
                                            None => None,
                                        }
                                    };
                                    match capsres {
                                        Some((caps, p7)) => if 0 <= p7 < s.len() && s[p7] == 0xff
                                            && p7 + 1 == s.len() {
                                            Some(
                                                OracleDatumS {
                                                    pkh,
                                                    base,
                                                    rate_num,
                                                    rate_den,
                                                    date,
                                                    timeout,
                                                    caps,
                                                },
                                            )
                                        } else {
                                            None
                                        },
                                        None => None,
                                    }
                                },
                                None => None,
                            },
                            None => None,
                        },
                        None => None,
                    },
                    None => None,
                }
            },
            None => None,
        }
    }
}

/// Decode a definite-length byte string: its content is exactly the
/// argument-many bytes after the head.
fn decode_bytes(bytes: &Vec<u8>, pos: usize) -> (r: Option<(Vec<u8>, usize)>)
    ensures
        ({
            let sp = spec_bytes(bytes@, pos as int);
            match (r, sp) {
                (Some((v, p2)), Some((sv, q))) => v@ == sv && p2 == q && pos < p2 <= bytes@.len(),
                (None, None) => true,
                _ => false,
            }
        }),
{
    let (major, len, p1) = match decode_head(bytes, pos) {
        Some(x) => x,
        None => {
            return None;
        },
    };
    if major != 2 {
        return None;
    }
    if len > (bytes.len() - p1) as u64 {
        return None;
    }
    let len: usize = len as usize;
    proof {
        assert(p1 + len <= bytes@.len());
    }
    let mut v: Vec<u8> = Vec::new();
    let mut i: usize = 0;
    while i < len
        invariant
            0 <= i <= len,
            p1 + len <= bytes@.len(),
            bytes@.len() <= usize::MAX,
            v@.len() == i,
            forall|k: int| 0 <= k < i ==> v@[k] == bytes@[p1 + k],
        decreases len - i,
    {
        v.push(bytes[p1 + i]);
        i = i + 1;
    }
    proof {
        assert(v@ =~= bytes@.subrange(p1 as int, p1 + len));
    }
    Some((v, p1 + len))
}

/// Decode a byte string into a fixed-length hash.
fn decode_hash28(bytes: &Vec<u8>, pos: usize) -> (r: Option<(crate::hash::Hash<28>, usize)>)
    ensures
        ({
            let sp = spec_bytes(bytes@, pos as int);
            match (r, sp) {
                (Some((h, p2)), Some((sv, q))) => sv.len() == 28 && h@ == sv && h.wf() && p2 == q
                    && pos < p2 <= bytes@.len(),
                (None, Some((sv, q))) => sv.len() != 28,
                (None, None) => true,
                (Some(_), None) => false,
            }
        }),
{
    let (v, p2) = match decode_bytes(bytes, pos) {
        Some(x) => x,
        None => {
            return None;
        },
    };
    match crate::hash::Hash::<28>::from_bytes(v) {
        Some(h) => Some((h, p2)),
        None => None,
    }
}

/// Decode an integer of any size: an ordinary unsigned or negative
/// head (whose value is taken exactly), or a big-integer byte string
/// under tag 2 (positive) or 3 (negative, encoding `-1 - n`).
fn decode_bigint(bytes: &Vec<u8>, pos: usize) -> (r: Option<(BigInt, usize)>)
    ensures
        ({
            let sp = spec_bigint_val(bytes@, pos as int);
            match (r, sp) {
                (Some((n, p2)), Some((val, q))) => n.wf() && n.value() == val && p2 == q && pos
                    < p2 <= bytes@.len(),
                (None, None) => true,
                _ => false,
            }
        }),
{
    let (major, value, p1) = match decode_head(bytes, pos) {
        Some(x) => x,
        None => {
            return None;
        },
    };
    if major == 0 {
        return Some((BigInt::from_u64(value), p1));
    }
    if major == 1 {
        // -1 - value: magnitude value + 1
        let base = BigInt::from_u64(value);
        let magnitude = increment_be(&base.magnitude);
        return Some((BigInt { negative: true, magnitude }, p1));
    }
    if major != 6 {
        return None;
    }
    if value == 2 {
        let (raw, p2) = match decode_bytes(bytes, p1) {
            Some(x) => x,
            None => {
                return None;
            },
        };
        if raw.len() == 0 {
            return None;
        }
        let magnitude = strip_leading_zeros(&raw);
        let n = BigInt { negative: false, magnitude };
        proof {
            assert(n.value() == be_val(raw@) as int);
        }
        return Some((n, p2));
    }
    if value == 3 {
        let (raw, p2) = match decode_bytes(bytes, p1) {
            Some(x) => x,
            None => {
                return None;
            },
        };
        if raw.len() == 0 {
            return None;
        }
        let stripped = strip_leading_zeros(&raw);
        let magnitude = increment_be(&stripped);
        let n = BigInt { negative: true, magnitude };
        proof {
            assert(n.value() == -1 - (be_val(raw@) as int));
        }
        return Some((n, p2));
    }
    None
}

/// Decode a machine-width signed integer: an unsigned or negative head
/// whose value fits, taken exactly.
fn decode_i64(bytes: &Vec<u8>, pos: usize) -> (r: Option<(i64, usize)>)
    ensures
        ({
            let sp = spec_i64_at(bytes@, pos as int);
            match (r, sp) {
                (Some((n, p2)), Some((sv, q))) => n == sv && p2 == q && pos < p2 <= bytes@.len(),
                (None, None) => true,
                _ => false,
            }
        }),
{
    let (major, value, p1) = match decode_head(bytes, pos) {
        Some(x) => x,
        None => {
            return None;
        },
    };
    if major == 0 {
        if value <= i64::MAX as u64 {
            Some((value as i64, p1))
        } else {
            None
        }
    } else if major == 1 {
        if value <= i64::MAX as u64 {
            Some((-1 - (value as i64), p1))
        } else {
            None
        }
    } else {
        None
    }
}

/// Expect the start of an indefinite-length array, the constructor
/// encoding the ledger uses for datum products.
fn open_indefinite_array(bytes: &Vec<u8>, pos: usize) -> (r: Option<usize>)
    ensures
        match r {
            Some(p2) => pos < bytes@.len() && bytes@[pos as int] == 0x9f && p2 == pos + 1 && p2
                <= bytes@.len(),
            None => !(pos < bytes@.len() && bytes@[pos as int] == 0x9f),
        },
{
    match read_u8(bytes, pos) {
        Some((b, p1)) => {
            if b == 0x9f {
                Some(p1)
            } else {
                None
            }
        },
        None => None,
    }
}

/// Expect the break byte ending an indefinite-length array.
fn expect_break(bytes: &Vec<u8>, pos: usize) -> (r: Option<usize>)
    ensures
        match r {
            Some(p2) => pos < bytes@.len() && bytes@[pos as int] == 0xff && p2 == pos + 1 && p2
                <= bytes@.len(),
            None => !(pos < bytes@.len() && bytes@[pos as int] == 0xff),
        },
{
    match read_u8(bytes, pos) {
        Some((b, p1)) => {
            if b == 0xff {
                Some(p1)
            } else {
                None
            }
        },
        None => None,
    }
}

/// Whether the break byte stands at this position.
fn at_break(bytes: &Vec<u8>, pos: usize) -> (r: bool)
    ensures
        r == (pos < bytes@.len() && bytes@[pos as int] == 0xff),
{
    pos < bytes.len() && bytes[pos] == 0xff
}

/// Decode a constructor tag: major type 6 with value 121 or 122, the
/// ledger's encodings of the first and second constructor.
fn decode_constr_tag(bytes: &Vec<u8>, pos: usize) -> (r: Option<(u64, usize)>)
    ensures
        ({
            let sp = spec_constr_tag_at(bytes@, pos as int);
            match (r, sp) {
                (Some((tag, p2)), Some((sv, q))) => tag == sv && p2 == q && (tag == 121 || tag
                    == 122) && pos < p2 <= bytes@.len(),
                (None, None) => true,
                _ => false,
            }
        }),
{
    let (major, value, p1) = match decode_head(bytes, pos) {
        Some(x) => x,
        None => {
            return None;
        },
    };
    if major == 6 && (value == 121 || value == 122) {
        Some((value, p1))
    } else {
        None
    }
}

impl Rational {
    /// Decode `[ numerator, denominator ]`.
    fn decode_at(bytes: &Vec<u8>, pos: usize) -> (r: Option<(Rational, usize)>)
        ensures
            ({
                let sp = spec_rational_at(bytes@, pos as int);
                match (r, sp) {
                    (Some((v, p2)), Some((nv, dv, q))) => v.wf() && v.numerator.value() == nv
                        && v.denominator.value() == dv && p2 == q && pos < p2 <= bytes@.len(),
                    (None, None) => true,
                    _ => false,
                }
            }),
    {
        let p1 = match open_indefinite_array(bytes, pos) {
            Some(p) => p,
            None => {
                return None;
            },
        };
        let (numerator, p2) = match decode_bigint(bytes, p1) {
            Some(x) => x,
            None => {
                return None;
            },
        };
        let (denominator, p3) = match decode_bigint(bytes, p2) {
            Some(x) => x,
            None => {
                return None;
            },
        };
        let p4 = match expect_break(bytes, p3) {
            Some(p) => p,
            None => {
                return None;
            },
        };
        Some((Rational { numerator, denominator }, p4))
    }
}

impl ExtendedAssetClass {
    /// Decode the tagged sum: constructor 121 wraps a currency symbol
    /// (any token of the policy), constructor 122 wraps the fields of
    /// one fixed token.
    fn decode_at(bytes: &Vec<u8>, pos: usize) -> (r: Option<(ExtendedAssetClass, usize)>)
        ensures
            ({
                let sp = spec_asset_class_at(bytes@, pos as int);
                match (r, sp) {
                    (Some((v, p2)), Some((cs, q))) => p2 == q && pos < p2 <= bytes@.len() && (
                    match (v, cs) {
                        (ExtendedAssetClass::AnyToken(b), AssetClassS::Any(sb)) => b@ == sb,
                        (
                            ExtendedAssetClass::FixedToken(f),
                            AssetClassS::Fixed(sym, name),
                        ) => f.symbol@ == sym && f.name@ == name,
                        _ => false,
                    }),
                    (None, None) => true,
                    _ => false,
                }
            }),
    {
        let (tag, p1) = match decode_constr_tag(bytes, pos) {
            Some(x) => x,
            None => {
                return None;
            },
        };
        let p2 = match open_indefinite_array(bytes, p1) {
            Some(p) => p,
            None => {
                return None;
            },
        };
        if tag == 121 {
            let (symbol, p3) = match decode_bytes(bytes, p2) {
                Some(x) => x,
                None => {
                    return None;
                },
            };
            let p4 = match expect_break(bytes, p3) {
                Some(p) => p,
                None => {
                    return None;
                },
            };
            Some((ExtendedAssetClass::AnyToken(symbol), p4))
        } else {
            let p3 = match open_indefinite_array(bytes, p2) {
                Some(p) => p,
                None => {
                    return None;
                },
            };
            let (symbol, p4) = match decode_bytes(bytes, p3) {
                Some(x) => x,
                None => {
                    return None;
                },
            };
            let (name, p5) = match decode_bytes(bytes, p4) {
                Some(x) => x,
                None => {
                    return None;
                },
            };
            let p6 = match expect_break(bytes, p5) {
                Some(p) => p,
                None => {
                    return None;
                },
            };
            let p7 = match expect_break(bytes, p6) {
                Some(p) => p,
                None => {
                    return None;
                },
            };
            Some((
                ExtendedAssetClass::FixedToken(FixedTokenExtendedAssetClassFields { symbol, name }),
                p7,
            ))
        }
    }
}

impl HardCaps {
    /// Decode `[ low_cap, high_cap ]`.
    fn decode_at(bytes: &Vec<u8>, pos: usize) -> (r: Option<(HardCaps, usize)>)
        ensures
            ({
                let sp = spec_hardcaps_at(bytes@, pos as int);
                match (r, sp) {
                    (Some((v, p2)), Some((ln, ld, hn, hd, q))) => v.wf()
                        && v.low_cap.numerator.value() == ln && v.low_cap.denominator.value() == ld
                        && v.high_cap.numerator.value() == hn && v.high_cap.denominator.value()
                        == hd && p2 == q && pos < p2 <= bytes@.len(),
                    (None, None) => true,
                    _ => false,
                }
            }),
    {
        let p1 = match open_indefinite_array(bytes, pos) {
            Some(p) => p,
            None => {
                return None;
            },
        };
        let (low_cap, p2) = match Rational::decode_at(bytes, p1) {
            Some(x) => x,
            None => {
                return None;
            },
        };
        let (high_cap, p3) = match Rational::decode_at(bytes, p2) {
            Some(x) => x,
            None => {
                return None;
            },
        };
        let p4 = match expect_break(bytes, p3) {
            Some(p) => p,
            None => {
                return None;
            },
        };
        Some((HardCaps { low_cap, high_cap }, p4))
    }
}

impl OracleDatum {
    /// Decode one oracle datum from its raw bytes. The datum is the
    /// constructor product `[ trusted key hash, base asset, exchange
    /// rate, rate date, time-out, hard caps? ]`; the optional hard caps
    /// are the tagged optional: constructor 121 wraps the caps,
    /// constructor 122 is the explicit absence. Trailing bytes after
    /// the closing break are refused.
    ///
    /// The contract is the grammar: decoding succeeds if and only if
    /// [`spec_datum`] accepts the bytes, and then every field equals
    /// the spec-level decode.
    pub fn decode(bytes: &Vec<u8>) -> (r: Option<OracleDatum>)
        ensures
            ({
                let sp = spec_datum(bytes@);
                match (r, sp) {
                    (Some(d), Some(ds)) => {
                        &&& d.wf()
                        &&& d.trusted_public_key_hash@ == ds.pkh
                        &&& (match (&d.base_asset, ds.base) {
                            (ExtendedAssetClass::AnyToken(b), AssetClassS::Any(sb)) => b@ == sb,
                            (
                                ExtendedAssetClass::FixedToken(f),
                                AssetClassS::Fixed(sym, name),
                            ) => f.symbol@ == sym && f.name@ == name,
                            _ => false,
                        })
                        &&& d.exchange_rate.numerator.value() == ds.rate_num
                        &&& d.exchange_rate.denominator.value() == ds.rate_den
                        &&& d.exchange_rate_date == ds.date
                        &&& d.prices_time_out == ds.timeout
                        &&& (match (&d.hard_caps, ds.caps) {
                            (None, None) => true,
                            (Some(Optional::Absent), Some(None)) => true,
                            (Some(Optional::Present(c)), Some(Some((ln, ld, hn, hd)))) => c.low_cap.numerator.value()
                                == ln && c.low_cap.denominator.value() == ld
                                && c.high_cap.numerator.value() == hn
                                && c.high_cap.denominator.value() == hd,
                            _ => false,
                        })
                    },
                    (None, None) => true,
                    _ => false,
                }
            }),
    {
        let p1 = match open_indefinite_array(bytes, 0) {
            Some(p) => p,
            None => {
                return None;
            },
        };
        let (trusted_public_key_hash, p2) = match decode_hash28(bytes, p1) {
            Some(x) => x,
            None => {
                return None;
            },
        };
        let (base_asset, p3) = match ExtendedAssetClass::decode_at(bytes, p2) {
            Some(x) => x,
            None => {
                return None;
            },
        };
        let (exchange_rate, p4) = match Rational::decode_at(bytes, p3) {
            Some(x) => x,
            None => {
                return None;
            },
        };
        let (exchange_rate_date, p5) = match decode_i64(bytes, p4) {
            Some(x) => x,
            None => {
                return None;
            },
        };
        let (prices_time_out, p6) = match decode_i64(bytes, p5) {
            Some(x) => x,
            None => {
                return None;
            },
        };
        let (hard_caps, p7) = if at_break(bytes, p6) {
            (None, p6)
        } else {
            let (tag, q1) = match decode_constr_tag(bytes, p6) {
                Some(x) => x,
                None => {
                    return None;
                },
            };
            let q2 = match open_indefinite_array(bytes, q1) {
                Some(p) => p,
                None => {
                    return None;
                },
            };
            if tag == 121 {
                let (caps, q3) = match HardCaps::decode_at(bytes, q2) {
                    Some(x) => x,
                    None => {
                        return None;
                    },
                };
                let q4 = match expect_break(bytes, q3) {
                    Some(p) => p,
                    None => {
                        return None;
                    },
                };
                (Some(Optional::Present(caps)), q4)
            } else {
                let q3 = match expect_break(bytes, q2) {
                    Some(p) => p,
                    None => {
                        return None;
                    },
                };
                (Some(Optional::Absent), q3)
            }
        };
        let p8 = match expect_break(bytes, p7) {
            Some(p) => p,
            None => {
                return None;
            },
        };
        if p8 != bytes.len() {
            return None;
        }
        Some(
            OracleDatum {
                trusted_public_key_hash,
                base_asset,
                exchange_rate,
                exchange_rate_date,
                prices_time_out,
                hard_caps,
            },
        )
    }
}

impl PartialEq for BigInt {
    fn eq(&self, other: &Self) -> (r: bool) {
        self.negative == other.negative && bytes_eq(&self.magnitude, &other.magnitude)
    }
}

impl vstd::std_specs::cmp::PartialEqSpecImpl for BigInt {
    open spec fn obeys_eq_spec() -> bool {
        true
    }

    open spec fn eq_spec(&self, other: &Self) -> bool {
        self.same_as(other)
    }
}

impl PartialEq for Rational {
    fn eq(&self, other: &Self) -> (r: bool) {
        self.numerator == other.numerator && self.denominator == other.denominator
    }
}

impl vstd::std_specs::cmp::PartialEqSpecImpl for Rational {
    open spec fn obeys_eq_spec() -> bool {
        true
    }

    open spec fn eq_spec(&self, other: &Self) -> bool {
        self.numerator.same_as(&other.numerator) && self.denominator.same_as(&other.denominator)
    }
}

impl PartialEq for FixedTokenExtendedAssetClassFields {
    fn eq(&self, other: &Self) -> (r: bool) {
        bytes_eq(&self.symbol, &other.symbol) && bytes_eq(&self.name, &other.name)
    }
}

impl vstd::std_specs::cmp::PartialEqSpecImpl for FixedTokenExtendedAssetClassFields {
    open spec fn obeys_eq_spec() -> bool {
        true
    }

    open spec fn eq_spec(&self, other: &Self) -> bool {
        self.symbol@ == other.symbol@ && self.name@ == other.name@
    }
}

impl PartialEq for ExtendedAssetClass {
    fn eq(&self, other: &Self) -> (r: bool) {
        match (self, other) {
            (ExtendedAssetClass::AnyToken(a), ExtendedAssetClass::AnyToken(b)) => bytes_eq(a, b),
            (ExtendedAssetClass::FixedToken(a), ExtendedAssetClass::FixedToken(b)) => a == b,
            _ => false,
        }
    }
}

impl vstd::std_specs::cmp::PartialEqSpecImpl for ExtendedAssetClass {
    open spec fn obeys_eq_spec() -> bool {
        true
    }

    open spec fn eq_spec(&self, other: &Self) -> bool {
        match (self, other) {
            (ExtendedAssetClass::AnyToken(a), ExtendedAssetClass::AnyToken(b)) => a@ == b@,
            (ExtendedAssetClass::FixedToken(a), ExtendedAssetClass::FixedToken(b)) => a.symbol@
                == b.symbol@ && a.name@ == b.name@,
            _ => false,
        }
    }
}

impl PartialEq for HardCaps {
    fn eq(&self, other: &Self) -> (r: bool) {
        self.low_cap == other.low_cap && self.high_cap == other.high_cap
    }
}

impl vstd::std_specs::cmp::PartialEqSpecImpl for HardCaps {
    open spec fn obeys_eq_spec() -> bool {
        true
    }

    open spec fn eq_spec(&self, other: &Self) -> bool {
        self.low_cap.numerator.same_as(&other.low_cap.numerator)
            && self.low_cap.denominator.same_as(&other.low_cap.denominator)
            && self.high_cap.numerator.same_as(&other.high_cap.numerator)
            && self.high_cap.denominator.same_as(&other.high_cap.denominator)
    }
}

impl PartialEq for Optional<HardCaps> {
    fn eq(&self, other: &Self) -> (r: bool) {
        match (self, other) {
            (Optional::Present(a), Optional::Present(b)) => a == b,
            (Optional::Absent, Optional::Absent) => true,
            _ => false,
        }
    }
}

impl vstd::std_specs::cmp::PartialEqSpecImpl for Optional<HardCaps> {
    open spec fn obeys_eq_spec() -> bool {
        true
    }

    open spec fn eq_spec(&self, other: &Self) -> bool {
        match (self, other) {
            (Optional::Present(a), Optional::Present(b)) => a.low_cap.numerator.same_as(
                &b.low_cap.numerator,
            ) && a.low_cap.denominator.same_as(&b.low_cap.denominator)
                && a.high_cap.numerator.same_as(&b.high_cap.numerator)
                && a.high_cap.denominator.same_as(&b.high_cap.denominator),
            (Optional::Absent, Optional::Absent) => true,
            _ => false,
        }
    }
}

impl PartialEq for OracleDatum {
    fn eq(&self, other: &Self) -> (r: bool) {
        let caps_eq = match (&self.hard_caps, &other.hard_caps) {
            (Some(a), Some(b)) => a == b,
            (None, None) => true,
            _ => false,
        };
        self.trusted_public_key_hash == other.trusted_public_key_hash && self.base_asset
            == other.base_asset && self.exchange_rate == other.exchange_rate
            && self.exchange_rate_date == other.exchange_rate_date && self.prices_time_out
            == other.prices_time_out && caps_eq
    }
}

impl vstd::std_specs::cmp::PartialEqSpecImpl for OracleDatum {
    open spec fn obeys_eq_spec() -> bool {
        true
    }

    open spec fn eq_spec(&self, other: &Self) -> bool {
        &&& self.trusted_public_key_hash@ == other.trusted_public_key_hash@
        &&& (match (&self.base_asset, &other.base_asset) {
            (ExtendedAssetClass::AnyToken(a), ExtendedAssetClass::AnyToken(b)) => a@ == b@,
            (ExtendedAssetClass::FixedToken(a), ExtendedAssetClass::FixedToken(b)) => a.symbol@
                == b.symbol@ && a.name@ == b.name@,
            _ => false,
        })
        &&& self.exchange_rate.numerator.same_as(&other.exchange_rate.numerator)
        &&& self.exchange_rate.denominator.same_as(&other.exchange_rate.denominator)
        &&& self.exchange_rate_date == other.exchange_rate_date
        &&& self.prices_time_out == other.prices_time_out
        &&& (match (&self.hard_caps, &other.hard_caps) {
            (Some(Optional::Present(a)), Some(Optional::Present(b))) => a.low_cap.numerator.same_as(
                &b.low_cap.numerator,
            ) && a.low_cap.denominator.same_as(&b.low_cap.denominator)
                && a.high_cap.numerator.same_as(&b.high_cap.numerator)
                && a.high_cap.denominator.same_as(&b.high_cap.denominator),
            (Some(Optional::Absent), Some(Optional::Absent)) => true,
            (None, None) => true,
            _ => false,
        })
    }
}

} // verus!
