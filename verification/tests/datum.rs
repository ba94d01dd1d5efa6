use hydrant::db::Db;
use hydrant::indexer::Indexer;
use hydrant::oracle::ExtendedAssetClass;
use hydrant::oracle_indexer::OracleIndexer;
use hydrant::point::Point;
use hydrant::script::Era;
use hydrant::tx::Block;
use hydrant::tx::Tx;
use hydrant::tx::TxOutput;
use hydrant::tx::TxOutputPointer;
use hydrant::oracle::FixedTokenExtendedAssetClassFields;
use hydrant::oracle::HardCaps;
use hydrant::oracle::Optional;
use hydrant::oracle::OracleDatum;
use hydrant::oracle::Rational;

fn h28_of(hex_str: &str) -> hydrant::hash::Hash<28> {
    let bytes = hex::decode(hex_str).expect("hex decode failed");
    hydrant::hash::Hash::<28>::from_bytes(bytes).expect("slice with incorrect length")
}

#[test]
fn test_decode() {
    let expected = OracleDatum {
        trusted_public_key_hash: h28_of(
            "2f97c124ebe90d23fac1be4111b5fda977021cb3f88cbe5d87145b61",
        ),
        base_asset: ExtendedAssetClass::FixedToken(FixedTokenExtendedAssetClassFields {
            symbol: hex::decode("1d7f33bd23d85e1a25d87d86fac4f199c3197a2f7afeb662a0f34e1e")
                .expect("hex decode failed"),
            name: hex::decode("776f726c646d6f62696c65746f6b656e").expect("hex decode failed"),
        }),
        exchange_rate: Rational::new(244907, 1000000),
        exchange_rate_date: 1727893977701,
        prices_time_out: 900000,
        hard_caps: None,
    };

    let cbor = hex::decode(
        "9f581c2f97c124ebe90d23fac1be4111b5fda977021cb3f88cbe5d87145b61d87a9f9f581c1d7f33bd23d85e1a25d87d86fac4f199c3197a2f7afeb662a0f34e1e50776f726c646d6f62696c65746f6b656effff9f1a0003bcab1a000f4240ff1b000001924e81ba651a000dbba0ff",
    )
    .expect("hex decode failed");
    let decoded = OracleDatum::decode(&cbor).unwrap();

    assert_eq!(expected, decoded);
}

#[test]
fn test_decode_with_hard_caps() {
    let expected = OracleDatum {
        trusted_public_key_hash: h28_of(
            "4952d7a9288abbd7b36625309c264c089ddbb6042fd7699e3d401b94",
        ),
        base_asset: ExtendedAssetClass::AnyToken(
            hex::decode("a63b0c97f9b1dac7098599ed7fa7b6be1225d0624a78759e1ff6881b")
                .expect("hex decode failed"),
        ),
        exchange_rate: Rational::new(10000000, 1),
        exchange_rate_date: 1729001581809,
        prices_time_out: 600000,
        hard_caps: Some(Optional::Present(HardCaps {
            low_cap: Rational::new(10000000, 1),
            high_cap: Rational::new(100000000, 1),
        })),
    };

    let cbor = hex::decode(
        "9f581c4952d7a9288abbd7b36625309c264c089ddbb6042fd7699e3d401b94d8799f581ca63b0c97f9b1dac7098599ed7fa7b6be1225d0624a78759e1ff6881bff9f1a0098968001ff1b0000019290866cf11a000927c0d8799f9f9f1a0098968001ff9f1a05f5e10001ffffffff",
    )
    .expect("hex decode failed");
    let decoded = OracleDatum::decode(&cbor).unwrap();

    assert_eq!(expected, decoded);
}

#[test]
fn test_decode_optim_bond1() {
    let expected = OracleDatum {
        trusted_public_key_hash: h28_of(
            "2f97c124ebe90d23fac1be4111b5fda977021cb3f88cbe5d87145b61",
        ),
        base_asset: ExtendedAssetClass::AnyToken(
            hex::decode("1f3dd1b685f0d87eaf92120aca3cf56da6ed91e2dbc32a95a26bce4a")
                .expect("hex decode failed"),
        ),
        exchange_rate: Rational::new(34062600, 1),
        exchange_rate_date: 1727893196280,
        prices_time_out: 900000,
        hard_caps: None,
    };

    let cbor = hex::decode(
        "9f581c2f97c124ebe90d23fac1be4111b5fda977021cb3f88cbe5d87145b61d8799f581c1f3dd1b685f0d87eaf92120aca3cf56da6ed91e2dbc32a95a26bce4aff9f1a0207c10801ff1b000001924e75cdf81a000dbba0ff",
    )
    .expect("hex decode failed");
    let decoded = OracleDatum::decode(&cbor).unwrap();

    assert_eq!(expected, decoded);
}

#[test]
fn big_integer_increment_carries() {
    // -1 - 0xffff decodes under the negative-integer head as a
    // magnitude of 0x010000: the increment must carry across bytes.
    let cbor = hex::decode("9f581c2f97c124ebe90d23fac1be4111b5fda977021cb3f88cbe5d87145b61d8799f581c1f3dd1b685f0d87eaf92120aca3cf56da6ed91e2dbc32a95a26bce4aff9f39ffff01ff1b000001924e75cdf81a000dbba0ff")
        .expect("hex decode failed");
    let decoded = OracleDatum::decode(&cbor).unwrap();
    assert!(decoded.exchange_rate.numerator.negative);
    assert_eq!(decoded.exchange_rate.numerator.magnitude, vec![0x01, 0x00, 0x00]);
}

fn oracle_policy() -> hydrant::hash::Hash<28> {
    h28_of("0fde77a0ea0833502b386d34e33d78f86c754bad309ee8bf008d7a9d")
}

fn priced_output(lovelace: u64) -> TxOutput {
    TxOutput {
        address: vec![0x01; 8],
        lovelace,
        assets: vec![hydrant::asset::Asset {
            policy: oracle_policy(),
            name: vec![0x01],
            quantity: 1,
        }],
        datum_hash: None,
    }
}

fn plain_output(lovelace: u64) -> TxOutput {
    TxOutput {
        address: vec![0x02; 8],
        lovelace,
        assets: Vec::new(),
        datum_hash: None,
    }
}

fn h32(byte: u8) -> hydrant::hash::Hash<32> {
    hydrant::hash::Hash::<32>::from_bytes(vec![byte; 32]).unwrap()
}

fn bare_tx(hash_byte: u8) -> Tx {
    Tx {
        hash: h32(hash_byte),
        inputs: Vec::new(),
        outputs: Vec::new(),
        collateral: Vec::new(),
        collateral_return: None,
        reference_inputs: Vec::new(),
        mints: Vec::new(),
        scripts: Vec::new(),
        native_scripts: Vec::new(),
        valid: true,
    }
}

fn block_at(slot: u64, hash_byte: u8, txs: Vec<Tx>) -> Block {
    Block {
        era: Era::Conway,
        hash: h32(hash_byte),
        number: slot,
        slot,
        size: 0,
        txs,
        datums: Vec::new(),
    }
}

#[test]
fn oracle_indexer_projects_priced_outputs() {
    let mut db = Db::new(8);
    let mut ixs = vec![OracleIndexer::new()];

    // One priced and one plain output: only the priced one is projected,
    // and the vote keeps the transaction.
    let mut t1 = bare_tx(0x11);
    t1.outputs = vec![priced_output(5), plain_output(7)];
    db.roll_forward(&mut ixs, &block_at(10, 0xAA, vec![t1])).unwrap();
    let held: Vec<(u64, u64)> = ixs[0]
        .utxos()
        .iter()
        .map(|(p, o)| (p.index, o.lovelace))
        .collect();
    assert_eq!(held, vec![(0, 5)]);
    assert!(db.get_volatile_tx(&h32(0x11)).is_some());

    // Spending the priced output removes it from the unspent set.
    let mut t2 = bare_tx(0x22);
    t2.inputs = vec![TxOutputPointer::new(h32(0x11), 0)];
    t2.outputs = vec![plain_output(3)];
    db.roll_forward(&mut ixs, &block_at(11, 0xBB, vec![t2])).unwrap();
    assert_eq!(ixs[0].utxos().len(), 0);

    // Rolling the spender back re-marks it from the historical table.
    db.roll_backward(&mut ixs, &Point::Specific(10, h32(0xAA))).unwrap();
    let held: Vec<(u64, u64)> = ixs[0]
        .utxos()
        .iter()
        .map(|(p, o)| (p.index, o.lovelace))
        .collect();
    assert_eq!(held, vec![(0, 5)]);
}

#[test]
fn oracle_indexer_gates_datums_on_decode() {
    let mut ix = OracleIndexer::new();
    let good = hex::decode(
        "9f581c2f97c124ebe90d23fac1be4111b5fda977021cb3f88cbe5d87145b61d87a9f9f581c1d7f33bd23d85e1a25d87d86fac4f199c3197a2f7afeb662a0f34e1e50776f726c646d6f62696c65746f6b656effff9f1a0003bcab1a000f4240ff1b000001924e81ba651a000dbba0ff",
    )
    .expect("hex decode failed");
    let h = h32(0x77);

    // A decodable datum is kept once.
    assert!(ix.insert_datum(&h, &good));
    assert!(ix.datum(&h).is_some());
    assert!(!ix.insert_datum(&h, &good));

    // Garbage is refused.
    assert!(!ix.insert_datum(&h32(0x78), &vec![0x00, 0x01]));
    assert!(ix.datum(&h32(0x78)).is_none());

    // Undoing a datum removes it.
    ix.delete_datum(&h);
    assert!(ix.datum(&h).is_none());
}
