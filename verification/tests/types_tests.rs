use wallet_index::types::{
    Address, BlockHash, Hash256, InPoint, KeyOrigin, OutPoint, ScriptHash, Txid,
};

#[test]
fn hash_from_bytes_reads_two_big_endian_halves() {
    let mut bytes = [0u8; 32];
    for (i, b) in bytes.iter_mut().enumerate() {
        *b = i as u8;
    }
    let h = Hash256::from_bytes(&bytes);
    assert_eq!(h.hi, 0x0001_0203_0405_0607_0809_0a0b_0c0d_0e0f);
    assert_eq!(h.lo, 0x1011_1213_1415_1617_1819_1a1b_1c1d_1e1f);
    assert_eq!(h.key(), (h.hi, h.lo));
}

#[test]
fn hash_from_bytes_extremes() {
    assert_eq!(Hash256::from_bytes(&[0u8; 32]), Hash256 { hi: 0, lo: 0 });
    assert_eq!(
        Hash256::from_bytes(&[0xffu8; 32]),
        Hash256 { hi: u128::MAX, lo: u128::MAX }
    );
    let mut one = [0u8; 32];
    one[31] = 1;
    assert_eq!(Hash256::from_bytes(&one), Hash256 { hi: 0, lo: 1 });
    let mut high = [0u8; 32];
    high[0] = 0x80;
    assert_eq!(Hash256::from_bytes(&high), Hash256 { hi: 1 << 127, lo: 0 });
}

#[test]
fn hash_order_follows_byte_order() {
    let mut a = [0u8; 32];
    let mut b = [0u8; 32];
    a[15] = 1;
    b[16] = 0xff;
    assert!(a > b);
    assert!(Hash256::from_bytes(&a) > Hash256::from_bytes(&b));
    assert!(Txid::from_bytes(&a) > Txid::from_bytes(&b));
    assert!(Txid::from_bytes(&a).key() > Txid::from_bytes(&b).key());
}

#[test]
fn identifiers_from_bytes_agree() {
    let mut bytes = [0u8; 32];
    bytes[0] = 0xab;
    bytes[31] = 0xcd;
    let h = Hash256::from_bytes(&bytes);
    assert_eq!(Txid::from_bytes(&bytes), Txid(h));
    assert_eq!(ScriptHash::from_bytes(&bytes), ScriptHash(h));
    assert_eq!(BlockHash::from_bytes(&bytes), BlockHash(h));
    assert_eq!(Txid(h).key(), (h.hi, h.lo));
    assert_eq!(ScriptHash(h).key(), (h.hi, h.lo));
}

#[test]
fn outpoint_and_inpoint() {
    let txid = Txid(Hash256 { hi: 3, lo: 4 });
    let o = OutPoint::new(txid, 7);
    assert_eq!(o, OutPoint { txid, vout: 7 });
    assert_eq!(o.key(), ((3, 4), 7));
    let i = InPoint::new(txid, 2);
    assert_eq!(i, InPoint { txid, vin: 2 });
}

#[test]
fn key_origin_is_standalone() {
    assert!(KeyOrigin::Standalone.is_standalone());
    assert!(!KeyOrigin::Derived(0xdead_beef, 3).is_standalone());
    assert_ne!(KeyOrigin::Derived(1, 2), KeyOrigin::Derived(1, 3));
}

#[test]
fn address_clone_and_compare() {
    let a = Address::new(String::from("bc1qexample"), vec![0x00, 0x14, 0xaa]);
    let b = a.clone();
    assert_eq!(b.text, "bc1qexample");
    assert_eq!(b.script, vec![0x00, 0x14, 0xaa]);
    assert!(a.same_text(&b));
    let c = Address::new(String::from("bc1qother"), vec![0x00, 0x14, 0xaa]);
    assert!(!a.same_text(&c));
}

#[test]
fn scripthash_is_sha256_of_the_script() {
    // SHA-256 of the empty string and of "abc".
    assert_eq!(
        ScriptHash::from_script(&[]),
        ScriptHash(Hash256 {
            hi: 0xe3b0c442_98fc1c14_9afbf4c8_996fb924,
            lo: 0x27ae41e4_649b934c_a495991b_7852b855,
        })
    );
    assert_eq!(
        ScriptHash::from_script(b"abc"),
        ScriptHash(Hash256 {
            hi: 0xba7816bf_8f01cfea_414140de_5dae2223,
            lo: 0xb00361a3_96177a9c_b410ff61_f20015ad,
        })
    );
}

#[test]
fn scripthash_of_an_address_hashes_its_script() {
    let a = Address::new(String::from("anything"), b"abc".to_vec());
    assert_eq!(ScriptHash::from_address(&a), ScriptHash::from_script(b"abc"));
    let b = Address::new(String::from("anything"), b"abd".to_vec());
    assert_ne!(ScriptHash::from_address(&a), ScriptHash::from_address(&b));
}

#[test]
fn hash_to_bytes_writes_two_big_endian_halves() {
    let h = Hash256 {
        hi: 0x0001_0203_0405_0607_0809_0a0b_0c0d_0e0f,
        lo: 0x1011_1213_1415_1617_1819_1a1b_1c1d_1e1f,
    };
    let mut expected = [0u8; 32];
    for (i, b) in expected.iter_mut().enumerate() {
        *b = i as u8;
    }
    assert_eq!(h.to_bytes(), expected);
    assert_eq!(Hash256 { hi: 0, lo: 0 }.to_bytes(), [0u8; 32]);
    assert_eq!(Hash256 { hi: u128::MAX, lo: u128::MAX }.to_bytes(), [0xffu8; 32]);
    let mut one = [0u8; 32];
    one[15] = 1;
    assert_eq!(Hash256 { hi: 1, lo: 0 }.to_bytes(), one);
}

#[test]
fn hash_bytes_round_trip() {
    let samples = [
        Hash256 { hi: 0, lo: 0 },
        Hash256 { hi: 1, lo: u128::MAX },
        Hash256 { hi: u128::MAX, lo: 1 },
        Hash256 { hi: 0xdead_beef, lo: 0xfeed_face_0000_0000_0000_0000_0000_0001 },
    ];
    for h in samples {
        assert_eq!(Hash256::from_bytes(&h.to_bytes()), h);
        assert_eq!(Txid::from_bytes(&Txid(h).to_bytes()), Txid(h));
        assert_eq!(ScriptHash::from_bytes(&ScriptHash(h).to_bytes()), ScriptHash(h));
    }
    let mut bytes = [0u8; 32];
    for (i, b) in bytes.iter_mut().enumerate() {
        *b = (i as u8).wrapping_mul(37).wrapping_add(11);
    }
    assert_eq!(Hash256::from_bytes(&bytes).to_bytes(), bytes);
}

#[test]
fn hashes_sort_as_their_bytes_do() {
    let mut all: Vec<[u8; 32]> = Vec::new();
    for seed in 0u8..40 {
        let mut bytes = [0u8; 32];
        for (i, b) in bytes.iter_mut().enumerate() {
            *b = seed.wrapping_mul(i as u8 + 3) ^ (i as u8).wrapping_mul(seed / 7 + 1);
        }
        all.push(bytes);
    }
    let mut by_bytes = all.clone();
    by_bytes.sort();
    let mut by_hash = all;
    by_hash.sort_by_key(|bytes| Hash256::from_bytes(bytes).key());
    assert_eq!(by_bytes, by_hash);
}
