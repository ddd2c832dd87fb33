use blsful::inner_types::GroupEncoding;
use blsful::{Bls12381G1Impl, Bls12381G2Impl, SecretKey, SignatureSchemes};
use multisig_bls::error::{AttributesError, Error, SharesError};
use multisig_bls::multisig::{
    codec_to_string, AttrId, Multisig, BLS12381_G1_SIG, BLS12381_G1_SIG_SHARE, BLS12381_G2_SIG,
    BLS12381_G2_SIG_SHARE,
};
use multisig_bls::sig_views::bls12381::BlsView;
use multisig_bls::sig_views::shares::{ShareTypeId, SigShare, ThresholdData};
use multisig_bls::varint::encode_varint;
use std::collections::BTreeMap;

const MSG: &[u8] = b"for the threshold";
const RAW: u64 = 0x55;

fn attrs(list: &[(AttrId, Vec<u8>)]) -> BTreeMap<u8, Vec<u8>> {
    let mut m = BTreeMap::new();
    for (id, v) in list {
        m.insert(id.code(), v.clone());
    }
    m
}

fn signature(codec: u64, threshold: usize, limit: usize, with_encoding: bool) -> Multisig {
    let mut list = vec![
        (AttrId::Threshold, encode_varint(threshold as u64)),
        (AttrId::Limit, encode_varint(limit as u64)),
    ];
    if with_encoding {
        list.push((AttrId::PayloadEncoding, encode_varint(RAW)));
    }
    Multisig { codec, message: MSG.to_vec(), attributes: attrs(&list) }
}

fn share(codec: u64, id: u8, threshold: usize, limit: usize, t: ShareTypeId, data: Vec<u8>) -> Multisig {
    Multisig {
        codec,
        message: MSG.to_vec(),
        attributes: attrs(&[
            (AttrId::ShareIdentifier, encode_varint(id as u64)),
            (AttrId::Threshold, encode_varint(threshold as u64)),
            (AttrId::Limit, encode_varint(limit as u64)),
            (AttrId::SigData, data),
            (AttrId::ThresholdData, t.to_bytes()),
        ]),
    }
}

fn view(ms: &Multisig) -> BlsView<'_> {
    BlsView::try_from(ms).unwrap()
}

#[test]
fn attribute_getters() {
    let ms = share(BLS12381_G1_SIG_SHARE, 7, 2, 3, ShareTypeId::Basic, vec![1, 2, 3]);
    let v = view(&ms);
    assert_eq!(v.threshold().unwrap(), 2);
    assert_eq!(v.limit().unwrap(), 3);
    assert_eq!(v.identifier().unwrap(), 7);
    assert_eq!(v.sig_bytes().unwrap(), vec![1, 2, 3]);
    assert!(matches!(
        v.payload_encoding(),
        Err(Error::Attributes(AttributesError::MissingPayloadEncoding))
    ));
    let sig = signature(BLS12381_G1_SIG, 2, 3, true);
    let v = view(&sig);
    assert_eq!(v.payload_encoding().unwrap(), RAW);
    assert!(matches!(v.identifier(), Err(Error::Shares(SharesError::NotASignatureShare))));
    assert!(matches!(v.sig_bytes(), Err(Error::Attributes(AttributesError::MissingSignature))));
    let bare = Multisig { codec: BLS12381_G1_SIG_SHARE, message: vec![], attributes: BTreeMap::new() };
    let v = view(&bare);
    assert!(matches!(v.threshold(), Err(Error::Attributes(AttributesError::MissingThreshold))));
    assert!(matches!(v.limit(), Err(Error::Attributes(AttributesError::MissingLimit))));
    assert!(matches!(v.identifier(), Err(Error::Attributes(AttributesError::MissingIdentifier))));
}

#[test]
fn views_only_for_bls_codecs() {
    let ms = Multisig { codec: 0x1300, message: vec![], attributes: BTreeMap::new() };
    match ms.threshold_attr_view() {
        Err(Error::UnsupportedAlgorithm(name)) => assert_eq!(name, "0x1300"),
        _ => panic!("expected an unsupported algorithm"),
    }
    assert!(ms.attr_view().is_err());
    assert!(ms.sig_data_view().is_err());
    assert!(signature(BLS12381_G2_SIG, 1, 1, false).threshold_attr_view().is_ok());
    assert_eq!(codec_to_string(BLS12381_G1_SIG_SHARE), "bls12_381-g1-sig-share");
}

#[test]
fn add_share_records_the_share() {
    let sig = signature(BLS12381_G1_SIG, 2, 3, true);
    let s1 = share(BLS12381_G1_SIG_SHARE, 1, 2, 3, ShareTypeId::ProofOfPossession, vec![0x11; 48]);
    let s2 = share(BLS12381_G1_SIG_SHARE, 2, 2, 3, ShareTypeId::ProofOfPossession, vec![0x22; 48]);
    let with1 = view(&sig).add_share(&s1).unwrap();
    let with2 = view(&with1).add_share(&s2).unwrap();
    assert_eq!(with2.codec, BLS12381_G1_SIG);
    assert_eq!(with2.message, MSG.to_vec());
    let td = with2.threshold_data().unwrap();
    assert_eq!(td.0.len(), 2);
    assert_eq!(td.0[&1].4, vec![0x11; 48]);
    assert_eq!(td.0[&2].3, ShareTypeId::ProofOfPossession);
    let v = view(&with2);
    assert_eq!(v.threshold().unwrap(), 2);
    assert_eq!(v.limit().unwrap(), 3);
    assert_eq!(v.payload_encoding().unwrap(), RAW);
    // adding a share again replaces it
    let s1b = share(BLS12381_G1_SIG_SHARE, 1, 2, 3, ShareTypeId::ProofOfPossession, vec![0x33; 48]);
    let again = view(&with2).add_share(&s1b).unwrap();
    let td = again.threshold_data().unwrap();
    assert_eq!(td.0.len(), 2);
    assert_eq!(td.0[&1].4, vec![0x33; 48]);
}

#[test]
fn add_share_takes_threshold_and_limit_from_the_share() {
    let sig = Multisig { codec: BLS12381_G2_SIG, message: MSG.to_vec(), attributes: BTreeMap::new() };
    let s = share(BLS12381_G2_SIG_SHARE, 4, 3, 5, ShareTypeId::Basic, vec![0x44; 96]);
    let out = view(&sig).add_share(&s).unwrap();
    let v = view(&out);
    assert_eq!(v.threshold().unwrap(), 3);
    assert_eq!(v.limit().unwrap(), 5);
    assert!(v.payload_encoding().is_err());
    assert!(out.attributes.get(&AttrId::PayloadEncoding.code()).is_none());
}

#[test]
fn add_share_errors() {
    let sig = signature(BLS12381_G1_SIG, 2, 3, true);
    let s = share(BLS12381_G1_SIG_SHARE, 1, 2, 3, ShareTypeId::Basic, vec![1; 48]);
    assert!(matches!(
        view(&s).add_share(&s),
        Err(Error::Shares(SharesError::IsASignatureShare))
    ));
    let other = Multisig { codec: 0x1300, message: vec![], attributes: BTreeMap::new() };
    assert!(matches!(view(&other).add_share(&s), Err(Error::UnsupportedAlgorithm(_))));
    let mut no_td = share(BLS12381_G1_SIG_SHARE, 1, 2, 3, ShareTypeId::Basic, vec![1; 48]);
    no_td.attributes.remove(&AttrId::ThresholdData.code());
    assert!(matches!(
        view(&sig).add_share(&no_td),
        Err(Error::Attributes(AttributesError::MissingThresholdData))
    ));
    let mut bad_type = share(BLS12381_G1_SIG_SHARE, 1, 2, 3, ShareTypeId::Basic, vec![1; 48]);
    bad_type.attributes.insert(AttrId::ThresholdData.code(), vec![7]);
    assert!(matches!(
        view(&sig).add_share(&bad_type),
        Err(Error::Shares(SharesError::InvalidShareTypeId(7)))
    ));
    // a whole signature is not a share
    let mut not_share = signature(BLS12381_G1_SIG, 2, 3, true);
    not_share.attributes.insert(AttrId::ThresholdData.code(), vec![0]);
    assert!(matches!(
        view(&sig).add_share(&not_share),
        Err(Error::Shares(SharesError::NotASignatureShare))
    ));
    let mut no_sig = share(BLS12381_G1_SIG_SHARE, 1, 2, 3, ShareTypeId::Basic, vec![1; 48]);
    no_sig.attributes.remove(&AttrId::SigData.code());
    assert!(matches!(
        view(&sig).add_share(&no_sig),
        Err(Error::Attributes(AttributesError::MissingSignature))
    ));
}

#[test]
fn shares_come_back_as_share_multisigs() {
    let sig = signature(BLS12381_G1_SIG, 2, 3, true);
    let s2 = share(BLS12381_G1_SIG_SHARE, 2, 2, 3, ShareTypeId::Basic, vec![0x22; 48]);
    let s1 = share(BLS12381_G1_SIG_SHARE, 1, 2, 3, ShareTypeId::Basic, vec![0x11; 48]);
    let with = view(&sig).add_share(&s2).unwrap();
    let with = view(&with).add_share(&s1).unwrap();
    let shares = view(&with).shares().unwrap();
    assert_eq!(shares.len(), 2);
    for (out, id, byte) in [(&shares[0], 1u8, 0x11u8), (&shares[1], 2, 0x22)] {
        assert_eq!(out.codec, BLS12381_G1_SIG_SHARE);
        assert_eq!(out.message, MSG.to_vec());
        let v = view(out);
        assert_eq!(v.identifier().unwrap(), id);
        assert_eq!(v.threshold().unwrap(), 2);
        assert_eq!(v.limit().unwrap(), 3);
        assert_eq!(v.sig_bytes().unwrap(), vec![byte; 48]);
        assert_eq!(v.payload_encoding().unwrap(), RAW);
        assert_eq!(ShareTypeId::try_from_bytes(&out.attributes[&AttrId::ThresholdData.code()]).unwrap(), ShareTypeId::Basic);
    }
    // a share that came out goes back in
    let again = view(&sig).add_share(&shares[0]).unwrap();
    assert_eq!(again.threshold_data().unwrap().0[&1].4, vec![0x11; 48]);
}

#[test]
fn shares_errors_and_empty() {
    let sig = signature(BLS12381_G2_SIG, 2, 3, false);
    assert_eq!(view(&sig).shares().unwrap().len(), 0);
    let s = share(BLS12381_G2_SIG_SHARE, 1, 2, 3, ShareTypeId::Basic, vec![1; 96]);
    assert!(matches!(view(&s).shares(), Err(Error::Shares(SharesError::IsASignatureShare))));
    // shares need the payload encoding of the signature
    let with = view(&sig).add_share(&s).unwrap();
    assert!(matches!(
        view(&with).shares(),
        Err(Error::Attributes(AttributesError::MissingPayloadEncoding))
    ));
    let other = Multisig { codec: 0xed, message: vec![], attributes: BTreeMap::new() };
    match view(&other).shares() {
        Err(Error::UnsupportedAlgorithm(name)) => assert_eq!(name, "0xed"),
        _ => panic!("expected an unsupported algorithm"),
    }
}

fn g1_shares(sk: &SecretKey<Bls12381G1Impl>, scheme: SignatureSchemes, t: usize, n: usize) -> Vec<(u8, Vec<u8>)> {
    sk.split(t, n)
        .unwrap()
        .iter()
        .map(|s| {
            let raw = s.sign(scheme, MSG).unwrap().as_raw_value().0;
            (raw[0], raw[1..].to_vec())
        })
        .collect()
}

fn g2_shares(sk: &SecretKey<Bls12381G2Impl>, scheme: SignatureSchemes, t: usize, n: usize) -> Vec<(u8, Vec<u8>)> {
    sk.split(t, n)
        .unwrap()
        .iter()
        .map(|s| {
            let raw = s.sign(scheme, MSG).unwrap().as_raw_value().0;
            (raw[0], raw[1..].to_vec())
        })
        .collect()
}

#[test]
fn combine_rebuilds_the_g1_signature() {
    let sk = SecretKey::<Bls12381G1Impl>::from_hash(b"g1 key");
    let expected = sk.sign(SignatureSchemes::ProofOfPossession, MSG).unwrap();
    let expected = expected.as_raw_value().to_bytes().as_ref().to_vec();
    let mut ms = signature(BLS12381_G1_SIG, 2, 3, true);
    for (id, value) in g1_shares(&sk, SignatureSchemes::ProofOfPossession, 2, 3).into_iter().take(2) {
        let s = share(BLS12381_G1_SIG_SHARE, id, 2, 3, ShareTypeId::ProofOfPossession, value);
        ms = view(&ms).add_share(&s).unwrap();
    }
    let sig = view(&ms).combine().unwrap();
    assert_eq!(sig.codec, BLS12381_G1_SIG);
    assert_eq!(sig.message, MSG.to_vec());
    assert_eq!(sig.attributes[&AttrId::SigData.code()], expected);
    assert_eq!(sig.attributes[&AttrId::Scheme.code()], vec![2]);
    assert_eq!(view(&sig).payload_encoding().unwrap(), RAW);
}

#[test]
fn combine_rebuilds_the_g2_signature() {
    let sk = SecretKey::<Bls12381G2Impl>::from_hash(b"g2 key");
    let expected = sk.sign(SignatureSchemes::Basic, MSG).unwrap();
    let expected = expected.as_raw_value().to_bytes().as_ref().to_vec();
    let mut ms = signature(BLS12381_G2_SIG, 2, 3, false);
    for (id, value) in g2_shares(&sk, SignatureSchemes::Basic, 2, 3) {
        let s = share(BLS12381_G2_SIG_SHARE, id, 2, 3, ShareTypeId::Basic, value);
        ms = view(&ms).add_share(&s).unwrap();
    }
    let sig = view(&ms).combine().unwrap();
    assert_eq!(sig.codec, BLS12381_G2_SIG);
    assert_eq!(sig.attributes[&AttrId::SigData.code()], expected);
    assert_eq!(sig.attributes[&AttrId::Scheme.code()], vec![0]);
    assert!(sig.attributes.get(&AttrId::PayloadEncoding.code()).is_none());
}

#[test]
fn combine_errors() {
    let sk = SecretKey::<Bls12381G1Impl>::from_hash(b"g1 key");
    let shares = g1_shares(&sk, SignatureSchemes::Basic, 2, 3);
    // fewer shares than the threshold
    let mut ms = signature(BLS12381_G1_SIG, 2, 3, true);
    let (id, value) = shares[0].clone();
    ms = view(&ms).add_share(&share(BLS12381_G1_SIG_SHARE, id, 2, 3, ShareTypeId::Basic, value)).unwrap();
    assert!(matches!(view(&ms).combine(), Err(Error::Shares(SharesError::NotEnoughShares))));
    // shares of two types
    let (id, value) = shares[1].clone();
    ms = view(&ms)
        .add_share(&share(BLS12381_G1_SIG_SHARE, id, 2, 3, ShareTypeId::ProofOfPossession, value))
        .unwrap();
    assert!(matches!(view(&ms).combine(), Err(Error::Shares(SharesError::ShareTypeMismatch))));
    // a single share is refused by the signature library
    let mut one = signature(BLS12381_G1_SIG, 1, 1, true);
    let (id, value) = shares[2].clone();
    one = view(&one).add_share(&share(BLS12381_G1_SIG_SHARE, id, 1, 1, ShareTypeId::Basic, value)).unwrap();
    one.attributes.insert(AttrId::Threshold.code(), encode_varint(1));
    assert!(matches!(view(&one).combine(), Err(Error::Shares(SharesError::ShareCombineFailed(_)))));
    // no threshold
    let bare = Multisig { codec: BLS12381_G1_SIG, message: vec![], attributes: BTreeMap::new() };
    assert!(matches!(
        view(&bare).combine(),
        Err(Error::Attributes(AttributesError::MissingThreshold))
    ));
    // a share cannot be combined
    let s = share(BLS12381_G1_SIG_SHARE, 1, 0, 1, ShareTypeId::Basic, vec![1; 48]);
    match view(&s).combine() {
        Err(Error::UnsupportedAlgorithm(name)) => assert_eq!(name, "bls12_381-g1-sig-share"),
        _ => panic!("expected an unsupported algorithm"),
    }
    // G1 needs the payload encoding
    let mut no_enc = signature(BLS12381_G1_SIG, 2, 3, false);
    for (id, value) in shares.iter().cloned() {
        no_enc = view(&no_enc).add_share(&share(BLS12381_G1_SIG_SHARE, id, 2, 3, ShareTypeId::Basic, value)).unwrap();
    }
    assert!(matches!(
        view(&no_enc).combine(),
        Err(Error::Attributes(AttributesError::MissingPayloadEncoding))
    ));
}

#[test]
fn threshold_data_attribute_of_a_multisig() {
    let ms = signature(BLS12381_G1_SIG, 2, 3, true);
    assert_eq!(ms.threshold_data().unwrap().0.len(), 0);
    let mut m = BTreeMap::new();
    m.insert(9u8, SigShare(9, 2, 3, ShareTypeId::Basic, vec![9]));
    let mut with = signature(BLS12381_G1_SIG, 2, 3, true);
    with.attributes.insert(AttrId::ThresholdData.code(), ThresholdData(m).to_bytes());
    assert_eq!(with.threshold_data().unwrap().0[&9].4, vec![9]);
}
