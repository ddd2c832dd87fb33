use multisig_bls::error::{Error, SharesError};
use multisig_bls::sig_views::shares::{ShareTypeId, SigShare, ThresholdData};
use multisig_bls::varint::{decode_u64, decode_u8, decode_usize, encode_varint, VarintError};
use std::collections::BTreeMap;

#[test]
fn varint_encodes_seven_bits_per_byte() {
    assert_eq!(encode_varint(0), vec![0x00]);
    assert_eq!(encode_varint(1), vec![0x01]);
    assert_eq!(encode_varint(127), vec![0x7f]);
    assert_eq!(encode_varint(128), vec![0x80, 0x01]);
    assert_eq!(encode_varint(300), vec![0xac, 0x02]);
    assert_eq!(encode_varint(16384), vec![0x80, 0x80, 0x01]);
    assert_eq!(encode_varint(u64::MAX).len(), 10);
}

#[test]
fn varint_reads_back_what_it_wrote() {
    for v in [0u64, 1, 127, 128, 255, 256, 300, 16383, 16384, 1 << 35, u64::MAX] {
        let mut bytes = encode_varint(v);
        bytes.extend_from_slice(&[9, 8, 7]);
        let (got, rest) = decode_u64(&bytes).unwrap();
        assert_eq!(got, v);
        assert_eq!(rest, &[9, 8, 7]);
    }
}

#[test]
fn varint_errors() {
    assert_eq!(decode_u64(&[]), Err(VarintError::Insufficient));
    assert_eq!(decode_u64(&[0x80]), Err(VarintError::Insufficient));
    assert_eq!(decode_u64(&[0x80, 0x00]), Err(VarintError::NotMinimal));
    assert_eq!(decode_u8(&[0x80, 0x80, 0x01]), Err(VarintError::Overflow));
    assert_eq!(decode_u8(&[0x80, 0x02]), Err(VarintError::Overflow));
    assert_eq!(decode_u8(&[0xff, 0x01]), Ok((255u8, &[][..])));
    assert_eq!(decode_u64(&[0xff; 11]), Err(VarintError::Overflow));
    // eleven bits above 64 in the tenth byte
    let mut too_big = vec![0xff; 9];
    too_big.push(0x02);
    assert_eq!(decode_u64(&too_big), Err(VarintError::Overflow));
    assert_eq!(decode_usize(&[0x05, 0x01]), Ok((5usize, &[0x01u8][..])));
}

#[test]
fn share_type_codes_and_names() {
    assert_eq!(ShareTypeId::Basic.code(), 0);
    assert_eq!(ShareTypeId::MessageAugmentation.code(), 1);
    assert_eq!(ShareTypeId::ProofOfPossession.code(), 2);
    assert_eq!(u8::from(ShareTypeId::ProofOfPossession), 2);
    assert_eq!(ShareTypeId::Basic.as_str(), "basic");
    assert_eq!(ShareTypeId::MessageAugmentation.as_str(), "message-augmentation");
    assert_eq!(ShareTypeId::ProofOfPossession.as_str(), "proof-of-possession");
    assert_eq!(ShareTypeId::ProofOfPossession.to_display_string(), "proof-of-possession");
    assert_eq!(ShareTypeId::default(), ShareTypeId::Basic);
}

#[test]
fn share_type_from_code() {
    assert_eq!(ShareTypeId::try_from_code(1).unwrap(), ShareTypeId::MessageAugmentation);
    assert!(matches!(
        ShareTypeId::try_from_code(3),
        Err(Error::Shares(SharesError::InvalidShareTypeId(3)))
    ));
}

#[test]
fn share_type_from_name_ignores_ascii_case() {
    assert_eq!(ShareTypeId::try_from_name("basic").unwrap(), ShareTypeId::Basic);
    assert_eq!(ShareTypeId::try_from_name("BASIC").unwrap(), ShareTypeId::Basic);
    assert_eq!(
        ShareTypeId::try_from_name("Message-Augmentation").unwrap(),
        ShareTypeId::MessageAugmentation
    );
    assert_eq!(
        ShareTypeId::try_from_name("proof-OF-possession").unwrap(),
        ShareTypeId::ProofOfPossession
    );
    for t in [ShareTypeId::Basic, ShareTypeId::MessageAugmentation, ShareTypeId::ProofOfPossession] {
        assert_eq!(ShareTypeId::try_from_name(t.as_str()).unwrap(), t);
    }
    match ShareTypeId::try_from_name("basics") {
        Err(Error::Shares(SharesError::InvalidShareTypeName(s))) => assert_eq!(s, "basics"),
        _ => panic!("expected an invalid share type name"),
    }
}

#[test]
fn share_type_bytes() {
    assert_eq!(ShareTypeId::ProofOfPossession.to_bytes(), vec![2]);
    let (t, rest) = ShareTypeId::try_decode_from(&[1, 7]).unwrap();
    assert_eq!(t, ShareTypeId::MessageAugmentation);
    assert_eq!(rest, &[7]);
    assert_eq!(ShareTypeId::try_from_bytes(&[0]).unwrap(), ShareTypeId::Basic);
    assert!(matches!(
        ShareTypeId::try_from_bytes(&[5]),
        Err(Error::Shares(SharesError::InvalidShareTypeId(5)))
    ));
    assert!(matches!(
        ShareTypeId::try_from_bytes(&[]),
        Err(Error::Multitrait(VarintError::Insufficient))
    ));
}

#[test]
fn sig_share_bytes() {
    let share = SigShare(3, 2, 300, ShareTypeId::ProofOfPossession, vec![0xaa, 0xbb, 0xcc]);
    let bytes = share.to_bytes();
    assert_eq!(bytes, vec![3, 2, 0xac, 0x02, 2, 3, 0xaa, 0xbb, 0xcc]);
    let mut more = bytes.clone();
    more.push(0x42);
    let (back, rest) = SigShare::try_decode_from(&more).unwrap();
    assert_eq!(back.0, 3);
    assert_eq!(back.1, 2);
    assert_eq!(back.2, 300);
    assert_eq!(back.3, ShareTypeId::ProofOfPossession);
    assert_eq!(back.4, vec![0xaa, 0xbb, 0xcc]);
    assert_eq!(rest, &[0x42]);
    let again = SigShare::try_from_bytes(&bytes).unwrap();
    assert_eq!(again.to_bytes(), bytes);
}

#[test]
fn sig_share_errors() {
    // share bytes shorter than their length prefix
    assert!(matches!(
        SigShare::try_from_bytes(&[3, 2, 5, 2, 4, 0xaa]),
        Err(Error::Multiutil(VarintError::Insufficient))
    ));
    // bad share type
    assert!(matches!(
        SigShare::try_from_bytes(&[3, 2, 5, 9, 0]),
        Err(Error::Shares(SharesError::InvalidShareTypeId(9)))
    ));
    // identifier too large for a u8
    assert!(matches!(
        SigShare::try_from_bytes(&[0x80, 0x02, 2, 5, 0, 0]),
        Err(Error::Multiutil(VarintError::Overflow))
    ));
    assert!(matches!(SigShare::try_from_bytes(&[]), Err(Error::Multiutil(VarintError::Insufficient))));
}

#[test]
fn threshold_data_bytes_in_identifier_order() {
    let mut m = BTreeMap::new();
    m.insert(5u8, SigShare(5, 2, 3, ShareTypeId::Basic, vec![0x55]));
    m.insert(2u8, SigShare(2, 2, 3, ShareTypeId::Basic, vec![0x22, 0x23]));
    let td = ThresholdData(m);
    let bytes = td.to_bytes();
    assert_eq!(bytes, vec![2, 2, 2, 3, 0, 2, 0x22, 0x23, 5, 2, 3, 0, 1, 0x55]);
    let (back, rest) = ThresholdData::try_decode_from(&bytes).unwrap();
    assert!(rest.is_empty());
    assert_eq!(back.0.len(), 2);
    assert_eq!(back.0[&2].4, vec![0x22, 0x23]);
    assert_eq!(back.0[&5].4, vec![0x55]);
    assert_eq!(back.to_bytes(), bytes);
}

#[test]
fn threshold_data_decoding_keeps_the_last_of_an_identifier() {
    // two shares with identifier 1, out of order with share 0
    let bytes = vec![3, 1, 2, 3, 0, 1, 0x10, 0, 2, 3, 0, 1, 0x00, 1, 2, 3, 0, 1, 0x11];
    let td = ThresholdData::try_from_bytes(&bytes).unwrap();
    assert_eq!(td.0.len(), 2);
    assert_eq!(td.0[&1].4, vec![0x11]);
    assert_eq!(td.to_bytes(), vec![2, 0, 2, 3, 0, 1, 0x00, 1, 2, 3, 0, 1, 0x11]);
}

#[test]
fn threshold_data_empty_and_errors() {
    assert_eq!(ThresholdData::new().to_bytes(), vec![0]);
    assert_eq!(ThresholdData::default().0.len(), 0);
    assert_eq!(ThresholdData::try_from_bytes(&[0]).unwrap().0.len(), 0);
    // announces two shares, holds one
    assert!(matches!(
        ThresholdData::try_from_bytes(&[2, 1, 2, 3, 0, 1, 0x10]),
        Err(Error::Multiutil(VarintError::Insufficient))
    ));
    assert!(matches!(
        ThresholdData::try_from_bytes(&[]),
        Err(Error::Multiutil(VarintError::Insufficient))
    ));
}
