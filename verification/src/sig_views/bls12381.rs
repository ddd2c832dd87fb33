//! The BLS12-381 view of a multisig: its attributes, and the operations
//! that split a threshold signature into shares, add a share to it, and
//! combine its shares into a signature.
use crate::error::{AttributesError, Error, ErrorView, SharesError, SharesErrorView, result_view};
use crate::multisig::{
    attr, codec_name, codec_to_string, copy_bytes, is_bls_codec, is_bls_share_codec,
    is_bls_sig_codec, AttrId, Multisig, MultisigView, BLS12381_G1_SIG, BLS12381_G1_SIG_SHARE,
    BLS12381_G2_SIG, BLS12381_G2_SIG_SHARE,
};
use crate::sig_views::shares::{
    read_share_type, read_threshold_data, share_type_bytes, threshold_data_bytes, ShareTypeId,
    ShareView, SigShare, ThresholdData,
};
use crate::varint::{
    decode_u64, decode_u8, decode_usize, encode_varint, read_u64, read_u8, read_usize,
    varint_bytes,
};
use blsful::inner_types::GroupEncoding;
use blsful::vsss_rs::Share;
use blsful::{
    Bls12381G1Impl, Bls12381G2Impl, InnerPointShareG1, InnerPointShareG2, Signature,
    SignatureShare,
};
use std::collections::BTreeMap;
use vstd::prelude::*;

verus! {

/// The BLS12-381 view of a multisig.
pub struct BlsView<'a> {
    pub ms: &'a Multisig,
}

/// Whether `ms` has a BLS12-381 view, and the error when it has not.
pub open spec fn view_of(ms: MultisigView) -> Result<(), ErrorView> {
    if is_bls_codec(ms.codec) {
        Ok(())
    } else {
        Err(ErrorView::UnsupportedAlgorithm(codec_name(ms.codec)))
    }
}

/// The payload encoding of `ms`: the codec read from its payload encoding
/// attribute.
pub open spec fn payload_encoding_of(ms: MultisigView) -> Result<u64, ErrorView> {
    match attr(ms, AttrId::PayloadEncoding) {
        None => Err(ErrorView::Attributes(AttributesError::MissingPayloadEncoding)),
        Some(b) => match read_u64(b) {
            Ok((c, _)) => Ok(c),
            Err(e) => Err(ErrorView::Multicodec(e)),
        },
    }
}

/// The signature bytes of `ms`.
pub open spec fn sig_bytes_of(ms: MultisigView) -> Result<Seq<u8>, ErrorView> {
    match attr(ms, AttrId::SigData) {
        None => Err(ErrorView::Attributes(AttributesError::MissingSignature)),
        Some(b) => Ok(b),
    }
}

/// The threshold of `ms`.
pub open spec fn threshold_of(ms: MultisigView) -> Result<usize, ErrorView> {
    match attr(ms, AttrId::Threshold) {
        None => Err(ErrorView::Attributes(AttributesError::MissingThreshold)),
        Some(b) => match read_usize(b) {
            Ok((t, _)) => Ok(t),
            Err(e) => Err(ErrorView::Multiutil(e)),
        },
    }
}

/// The limit of `ms`.
pub open spec fn limit_of(ms: MultisigView) -> Result<usize, ErrorView> {
    match attr(ms, AttrId::Limit) {
        None => Err(ErrorView::Attributes(AttributesError::MissingLimit)),
        Some(b) => match read_usize(b) {
            Ok((t, _)) => Ok(t),
            Err(e) => Err(ErrorView::Multiutil(e)),
        },
    }
}

/// The share identifier of `ms`, which only a signature share has.
pub open spec fn identifier_of(ms: MultisigView) -> Result<u8, ErrorView> {
    if is_bls_share_codec(ms.codec) {
        match attr(ms, AttrId::ShareIdentifier) {
            None => Err(ErrorView::Attributes(AttributesError::MissingIdentifier)),
            Some(b) => match read_u8(b) {
                Ok((id, _)) => Ok(id),
                Err(e) => Err(ErrorView::Multiutil(e)),
            },
        }
    } else {
        Err(ErrorView::Shares(SharesErrorView::NotASignatureShare))
    }
}

/// The shares collected in `ms`: none when it has no threshold data.
pub open spec fn threshold_data_of(ms: MultisigView) -> Result<Map<u8, ShareView>, ErrorView> {
    match attr(ms, AttrId::ThresholdData) {
        None => Ok(Map::empty()),
        Some(b) => match read_threshold_data(b) {
            Ok((m, _)) => Ok(m),
            Err(e) => Err(e),
        },
    }
}

/// The signature share that `shares` builds out of the share `v` of `ms`:
/// it keeps the message and the payload encoding of `ms`, and its threshold
/// data is the share type.
pub open spec fn share_multisig(ms: MultisigView, codec: u64, v: ShareView, encoding: u64) -> MultisigView {
    MultisigView {
        codec,
        message: ms.message,
        attributes: Map::empty().insert(
            AttrId::ShareIdentifier.spec_code(),
            varint_bytes(v.id as nat),
        ).insert(AttrId::Threshold.spec_code(), varint_bytes(v.threshold as nat)).insert(
            AttrId::Limit.spec_code(),
            varint_bytes(v.limit as nat),
        ).insert(AttrId::SigData.spec_code(), v.data).insert(
            AttrId::PayloadEncoding.spec_code(),
            varint_bytes(encoding as nat),
        ).insert(AttrId::ThresholdData.spec_code(), share_type_bytes(v.share_type)),
    }
}

/// The signature shares built out of the shares of `m` whose identifiers
/// are `k` or more, in increasing order of identifier.
pub open spec fn share_multisigs_from(
    ms: MultisigView,
    codec: u64,
    m: Map<u8, ShareView>,
    encoding: u64,
    k: nat,
) -> Seq<MultisigView>
    decreases 256 - k,
{
    if k >= 256 {
        Seq::empty()
    } else {
        let here = if m.contains_key(k as u8) {
            seq![share_multisig(ms, codec, m[k as u8], encoding)]
        } else {
            Seq::empty()
        };
        here + share_multisigs_from(ms, codec, m, encoding, k + 1)
    }
}

/// The codec of the shares of a signature with codec `c`.
pub open spec fn share_codec_of(c: u64) -> u64 {
    if c == BLS12381_G1_SIG {
        BLS12381_G1_SIG_SHARE
    } else {
        BLS12381_G2_SIG_SHARE
    }
}

/// What `shares` gives for `ms`: one signature share per share collected
/// in `ms`, in increasing order of identifier.
pub open spec fn shares_of(ms: MultisigView) -> Result<Seq<MultisigView>, ErrorView> {
    if is_bls_sig_codec(ms.codec) {
        match threshold_data_of(ms) {
            Err(e) => Err(e),
            Ok(m) => if m.dom().is_empty() {
                Ok(Seq::empty())
            } else {
                match payload_encoding_of(ms) {
                    Err(e) => Err(e),
                    Ok(encoding) => Ok(
                        share_multisigs_from(ms, share_codec_of(ms.codec), m, encoding, 0),
                    ),
                }
            },
        }
    } else if is_bls_share_codec(ms.codec) {
        Err(ErrorView::Shares(SharesErrorView::IsASignatureShare))
    } else {
        Err(ErrorView::UnsupportedAlgorithm(codec_name(ms.codec)))
    }
}

/// The views of a list of multisigs.
pub open spec fn multisig_views(v: Seq<Multisig>) -> Seq<MultisigView> {
    v.map_values(|m: Multisig| m@)
}

fn build_share(ms: &Multisig, codec: u64, share: &SigShare, encoding: u64) -> (r: Multisig)
    ensures
        r@ == share_multisig(ms@, codec, share@, encoding),
{
    let mut attributes: BTreeMap<u8, Vec<u8>> = BTreeMap::new();
    attributes.insert(AttrId::ShareIdentifier.code(), encode_varint(share.0 as u64));
    attributes.insert(AttrId::Threshold.code(), encode_varint(share.1 as u64));
    attributes.insert(AttrId::Limit.code(), encode_varint(share.2 as u64));
    attributes.insert(AttrId::SigData.code(), copy_bytes(&share.4));
    attributes.insert(AttrId::PayloadEncoding.code(), encode_varint(encoding));
    attributes.insert(AttrId::ThresholdData.code(), share.3.to_bytes());
    let r = Multisig { codec, message: copy_bytes(&ms.message), attributes };
    proof {
        assert(r@.attributes =~= share_multisig(ms@, codec, share@, encoding).attributes);
    }
    r
}

/// The multisig that `add_share` builds: the codec and message of `ms`,
/// the threshold and limit `t` and `l`, the shares `m`, and the payload
/// encoding of `ms` when it has one.
pub open spec fn added_multisig(ms: MultisigView, m: Map<u8, ShareView>, t: usize, l: usize) -> MultisigView {
    let base = Map::empty().insert(AttrId::Threshold.spec_code(), varint_bytes(t as nat)).insert(
        AttrId::Limit.spec_code(),
        varint_bytes(l as nat),
    ).insert(AttrId::ThresholdData.spec_code(), threshold_data_bytes(m));
    MultisigView {
        codec: ms.codec,
        message: ms.message,
        attributes: match payload_encoding_of(ms) {
            Ok(e) => base.insert(AttrId::PayloadEncoding.spec_code(), varint_bytes(e as nat)),
            Err(_) => base,
        },
    }
}

/// What `add_share` gives for the threshold signature `ms` and the
/// signature share `share`: `ms` with the share recorded in its threshold
/// data under the share's identifier, and with the share's threshold and
/// limit.
pub open spec fn add_share_of(ms: MultisigView, share: MultisigView) -> Result<
    MultisigView,
    ErrorView,
> {
    if !is_bls_sig_codec(ms.codec) {
        if is_bls_share_codec(ms.codec) {
            Err(ErrorView::Shares(SharesErrorView::IsASignatureShare))
        } else {
            Err(ErrorView::UnsupportedAlgorithm(codec_name(ms.codec)))
        }
    } else {
        match attr(share, AttrId::ThresholdData) {
            None => Err(ErrorView::Attributes(AttributesError::MissingThresholdData)),
            Some(b) => match read_share_type(b) {
                Err(e) => Err(e),
                Ok((share_type, _)) => match view_of(share) {
                    Err(e) => Err(e),
                    Ok(_) => match threshold_of(share) {
                        Err(e) => Err(e),
                        Ok(threshold) => match limit_of(share) {
                            Err(e) => Err(e),
                            Ok(limit) => match identifier_of(share) {
                                Err(e) => Err(e),
                                Ok(id) => match sig_bytes_of(share) {
                                    Err(e) => Err(e),
                                    Ok(data) => match threshold_data_of(ms) {
                                        Err(e) => Err(e),
                                        Ok(m) => Ok(
                                            added_multisig(
                                                ms,
                                                m.insert(
                                                    id,
                                                    ShareView {
                                                        id,
                                                        threshold,
                                                        limit,
                                                        share_type,
                                                        data,
                                                    },
                                                ),
                                                threshold,
                                                limit,
                                            ),
                                        ),
                                    },
                                },
                            },
                        },
                    },
                },
            },
        }
    }
}

/// What `blsful::Signature::<Bls12381G1Impl>::from_shares` gives for the
/// signature shares of scheme `scheme` (a share type code) with identifiers
/// `ids` and share bytes `values`: the compressed bytes of the combined
/// signature, or the text of the error.
pub uninterp spec fn bls_g1_combined(scheme: u8, ids: Seq<u8>, values: Seq<Seq<u8>>) -> Result<
    Seq<u8>,
    Seq<char>,
>;

/// What `blsful::Signature::<Bls12381G2Impl>::from_shares` gives for the
/// signature shares of scheme `scheme` (a share type code) with identifiers
/// `ids` and share bytes `values`: the compressed bytes of the combined
/// signature, or the text of the error.
pub uninterp spec fn bls_g2_combined(scheme: u8, ids: Seq<u8>, values: Seq<Seq<u8>>) -> Result<
    Seq<u8>,
    Seq<char>,
>;

/// The view of the result of combining shares.
pub open spec fn combined_view(r: Result<Vec<u8>, String>) -> Result<Seq<u8>, Seq<char>> {
    match r {
        Ok(b) => Ok(b@),
        Err(m) => Err(m@),
    }
}

/// The views of a list of byte strings.
pub open spec fn byte_strings(v: Seq<Vec<u8>>) -> Seq<Seq<u8>> {
    v.map_values(|b: Vec<u8>| b@)
}

/// Combines BLS12-381 G1 signature shares with
/// `blsful::Signature::<Bls12381G1Impl>::from_shares`, each share made with
/// `vsss_rs::Share::with_identifier_and_value` from an identifier and its
/// share bytes, and returns the compressed bytes of the signature
/// (`GroupEncoding::to_bytes`) or the error's text. The contract names the
/// result, which depends on the arguments alone, and claims from the source
/// that fewer than two shares are refused (`combine_shares_group` requires
/// two); `with_identifier_and_value` panics on share bytes shorter than 48,
/// which `requires` rules out.
#[verifier::external_body]
fn combine_g1_shares(scheme: ShareTypeId, ids: &Vec<u8>, values: &Vec<Vec<u8>>) -> (r: Result<
    Vec<u8>,
    String,
>)
    requires
        ids.len() == values.len(),
        forall|i: int| 0 <= i < values.len() ==> values[i].len() >= 48,
    ensures
        combined_view(r) == bls_g1_combined(scheme.spec_code(), ids@, byte_strings(values@)),
        ids.len() < 2 ==> r is Err,
{
    let shares: Vec<SignatureShare<Bls12381G1Impl>> = ids.iter().zip(values).map(|(id, v)| {
        let s = InnerPointShareG1::with_identifier_and_value(*id, v);
        match scheme {
            ShareTypeId::Basic => SignatureShare::Basic(s),
            ShareTypeId::MessageAugmentation => SignatureShare::MessageAugmentation(s),
            ShareTypeId::ProofOfPossession => SignatureShare::ProofOfPossession(s),
        }
    }).collect();
    match Signature::from_shares(&shares) {
        Ok(sig) => Ok(sig.as_raw_value().to_bytes().as_ref().to_vec()),
        Err(e) => Err(e.to_string()),
    }
}

/// Combines BLS12-381 G2 signature shares with
/// `blsful::Signature::<Bls12381G2Impl>::from_shares`, each share made with
/// `vsss_rs::Share::with_identifier_and_value` from an identifier and its
/// share bytes, and returns the compressed bytes of the signature
/// (`GroupEncoding::to_bytes`) or the error's text. The contract names the
/// result, which depends on the arguments alone, and claims from the source
/// that fewer than two shares are refused (`combine_shares_group` requires
/// two); `with_identifier_and_value` panics on share bytes shorter than 96,
/// which `requires` rules out.
#[verifier::external_body]
fn combine_g2_shares(scheme: ShareTypeId, ids: &Vec<u8>, values: &Vec<Vec<u8>>) -> (r: Result<
    Vec<u8>,
    String,
>)
    requires
        ids.len() == values.len(),
        forall|i: int| 0 <= i < values.len() ==> values[i].len() >= 96,
    ensures
        combined_view(r) == bls_g2_combined(scheme.spec_code(), ids@, byte_strings(values@)),
        ids.len() < 2 ==> r is Err,
{
    let shares: Vec<SignatureShare<Bls12381G2Impl>> = ids.iter().zip(values).map(|(id, v)| {
        let s = InnerPointShareG2::with_identifier_and_value(*id, v);
        match scheme {
            ShareTypeId::Basic => SignatureShare::Basic(s),
            ShareTypeId::MessageAugmentation => SignatureShare::MessageAugmentation(s),
            ShareTypeId::ProofOfPossession => SignatureShare::ProofOfPossession(s),
        }
    }).collect();
    match Signature::from_shares(&shares) {
        Ok(sig) => Ok(sig.as_raw_value().to_bytes().as_ref().to_vec()),
        Err(e) => Err(e.to_string()),
    }
}

/// The share type of the share of `m` with the least identifier that is
/// `k` or more; `Basic` when there is none.
pub open spec fn first_type_from(m: Map<u8, ShareView>, k: nat) -> ShareTypeId
    decreases 256 - k,
{
    if k >= 256 {
        ShareTypeId::Basic
    } else if m.contains_key(k as u8) {
        m[k as u8].share_type
    } else {
        first_type_from(m, k + 1)
    }
}

/// All shares of `m` are of one share type.
pub open spec fn same_types(m: Map<u8, ShareView>) -> bool {
    forall|a: u8, b: u8|
        #![trigger m[a], m[b]]
        m.contains_key(a) && m.contains_key(b) ==> m[a].share_type == m[b].share_type
}

/// The shares of `m` with identifiers below `k` are all of the share type
/// of the first share.
pub open spec fn types_agree_below(m: Map<u8, ShareView>, k: u8) -> bool {
    forall|a: u8| #[trigger] m.contains_key(a) && a < k ==> m[a].share_type == first_type_from(m, 0)
}

/// The identifiers of `m` that are `k` or more, in increasing order.
pub open spec fn ids_from(m: Map<u8, ShareView>, k: nat) -> Seq<u8>
    decreases 256 - k,
{
    if k >= 256 {
        Seq::empty()
    } else {
        let here = if m.contains_key(k as u8) {
            seq![k as u8]
        } else {
            Seq::empty()
        };
        here + ids_from(m, k + 1)
    }
}

/// The share bytes of the shares of `m` whose identifiers are `k` or more,
/// in increasing order of identifier.
pub open spec fn values_from(m: Map<u8, ShareView>, k: nat) -> Seq<Seq<u8>>
    decreases 256 - k,
{
    if k >= 256 {
        Seq::empty()
    } else {
        let here = if m.contains_key(k as u8) {
            seq![m[k as u8].data]
        } else {
            Seq::empty()
        };
        here + values_from(m, k + 1)
    }
}

/// The length of the compressed bytes of a point of the signature group.
pub open spec fn point_len(c: u64) -> nat {
    if c == BLS12381_G1_SIG {
        48
    } else {
        96
    }
}

/// The multisig that `combine` builds from the combined signature `sig` of
/// scheme `scheme`: the codec and message of `ms`, the signature, its
/// scheme, and the payload encoding when there is one.
pub open spec fn combined_multisig(
    ms: MultisigView,
    scheme: ShareTypeId,
    sig: Seq<u8>,
    encoding: Option<u64>,
) -> MultisigView {
    let base = Map::empty().insert(AttrId::SigData.spec_code(), sig).insert(
        AttrId::Scheme.spec_code(),
        varint_bytes(scheme.spec_code() as nat),
    );
    MultisigView {
        codec: ms.codec,
        message: ms.message,
        attributes: match encoding {
            Some(e) => base.insert(AttrId::PayloadEncoding.spec_code(), varint_bytes(e as nat)),
            None => base,
        },
    }
}

/// What `combine` gives for `ms`: the signature combined from the shares
/// collected in `ms`, when there are at least as many as the threshold and
/// all of one share type.
pub open spec fn combine_of(ms: MultisigView) -> Result<MultisigView, ErrorView> {
    match threshold_data_of(ms) {
        Err(e) => Err(e),
        Ok(m) => match view_of(ms) {
            Err(e) => Err(e),
            Ok(_) => match threshold_of(ms) {
                Err(e) => Err(e),
                Ok(t) => if m.len() < t {
                    Err(ErrorView::Shares(SharesErrorView::NotEnoughShares))
                } else if !is_bls_sig_codec(ms.codec) {
                    Err(ErrorView::UnsupportedAlgorithm(codec_name(ms.codec)))
                } else if !same_types(m) {
                    Err(ErrorView::Shares(SharesErrorView::ShareTypeMismatch))
                } else {
                    let scheme = first_type_from(m, 0);
                    let combined = if ms.codec == BLS12381_G1_SIG {
                        bls_g1_combined(scheme.spec_code(), ids_from(m, 0), values_from(m, 0))
                    } else {
                        bls_g2_combined(scheme.spec_code(), ids_from(m, 0), values_from(m, 0))
                    };
                    match combined {
                        Err(msg) => Err(
                            ErrorView::Shares(SharesErrorView::ShareCombineFailed(msg)),
                        ),
                        Ok(sig) => if ms.codec == BLS12381_G1_SIG {
                            match payload_encoding_of(ms) {
                                Err(e) => Err(e),
                                Ok(e) => Ok(combined_multisig(ms, scheme, sig, Some(e))),
                            }
                        } else {
                            Ok(
                                combined_multisig(
                                    ms,
                                    scheme,
                                    sig,
                                    match payload_encoding_of(ms) {
                                        Ok(e) => Some(e),
                                        Err(_) => None,
                                    },
                                ),
                            )
                        },
                    }
                },
            },
        },
    }
}

/// The share bytes that `combine` hands to the signature library are long
/// enough for a point: every share it reaches before it could see a
/// mismatch of share types.
pub open spec fn combine_inputs_fit(ms: MultisigView) -> bool {
    is_bls_sig_codec(ms.codec) ==> match threshold_data_of(ms) {
        Err(_) => true,
        Ok(m) => match threshold_of(ms) {
            Err(_) => true,
            Ok(t) => m.len() >= t ==> forall|k: u8|
                #[trigger] m.contains_key(k) && types_agree_below(m, k) ==> m[k].data.len()
                    >= point_len(ms.codec),
        },
    }
}

impl Multisig {
    fn bls_view(&self) -> (r: Result<BlsView<'_>, Error>)
        ensures
            match r {
                Ok(v) => view_of(self@) == Ok::<(), ErrorView>(()) && v.ms == self,
                Err(e) => view_of(self@) == Err::<(), ErrorView>(e@),
            },
    {
        if self.codec == BLS12381_G1_SIG || self.codec == BLS12381_G2_SIG || self.codec
            == BLS12381_G1_SIG_SHARE || self.codec == BLS12381_G2_SIG_SHARE {
            Ok(BlsView { ms: self })
        } else {
            Err(Error::UnsupportedAlgorithm(codec_to_string(self.codec)))
        }
    }

    /// The view of the multisig's attributes.
    pub fn attr_view(&self) -> (r: Result<BlsView<'_>, Error>)
        ensures
            match r {
                Ok(v) => view_of(self@) == Ok::<(), ErrorView>(()) && v.ms == self,
                Err(e) => view_of(self@) == Err::<(), ErrorView>(e@),
            },
    {
        self.bls_view()
    }

    /// The view of the multisig's signature data.
    pub fn sig_data_view(&self) -> (r: Result<BlsView<'_>, Error>)
        ensures
            match r {
                Ok(v) => view_of(self@) == Ok::<(), ErrorView>(()) && v.ms == self,
                Err(e) => view_of(self@) == Err::<(), ErrorView>(e@),
            },
    {
        self.bls_view()
    }

    /// The view of the multisig's threshold attributes.
    pub fn threshold_attr_view(&self) -> (r: Result<BlsView<'_>, Error>)
        ensures
            match r {
                Ok(v) => view_of(self@) == Ok::<(), ErrorView>(()) && v.ms == self,
                Err(e) => view_of(self@) == Err::<(), ErrorView>(e@),
            },
    {
        self.bls_view()
    }

    /// The shares collected in the multisig.
    pub fn threshold_data(&self) -> (r: Result<ThresholdData, Error>)
        ensures
            match r {
                Ok(t) => threshold_data_of(self@) == Ok::<Map<u8, ShareView>, ErrorView>(t@),
                Err(e) => threshold_data_of(self@) == Err::<Map<u8, ShareView>, ErrorView>(e@),
            },
    {
        match self.get_attr(AttrId::ThresholdData) {
            Some(v) => ThresholdData::try_from_bytes(v.as_slice()),
            None => Ok(ThresholdData::new()),
        }
    }
}

impl<'a> BlsView<'a> {
    /// The view of `ms`.
    pub fn try_from(ms: &'a Multisig) -> (r: Result<BlsView<'a>, Error>)
        ensures
            r matches Ok(v) && v.ms == ms,
    {
        Ok(BlsView { ms })
    }

    /// for Bls Multisigs, the payload encoding is stored using the
    /// AttrId::PayloadEncoding attribute id.
    pub fn payload_encoding(&self) -> (r: Result<u64, Error>)
        ensures
            result_view(r) == payload_encoding_of(self.ms@),
    {
        let v = match self.ms.get_attr(AttrId::PayloadEncoding) {
            Some(v) => v,
            None => return Err(Error::Attributes(AttributesError::MissingPayloadEncoding)),
        };
        match decode_u64(v.as_slice()) {
            Ok((c, _)) => Ok(c),
            Err(e) => Err(Error::Multicodec(e)),
        }
    }

    /// For Bls Multisig values, the sig data is stored using the
    /// AttrId::SigData attribute id.
    pub fn sig_bytes(&self) -> (r: Result<Vec<u8>, Error>)
        ensures
            match r {
                Ok(b) => sig_bytes_of(self.ms@) == Ok::<Seq<u8>, ErrorView>(b@),
                Err(e) => sig_bytes_of(self.ms@) == Err::<Seq<u8>, ErrorView>(e@),
            },
    {
        match self.ms.get_attr(AttrId::SigData) {
            Some(v) => Ok(copy_bytes(v)),
            None => Err(Error::Attributes(AttributesError::MissingSignature)),
        }
    }

    /// get the threshold value for this multisig
    pub fn threshold(&self) -> (r: Result<usize, Error>)
        ensures
            result_view(r) == threshold_of(self.ms@),
    {
        let v = match self.ms.get_attr(AttrId::Threshold) {
            Some(v) => v,
            None => return Err(Error::Attributes(AttributesError::MissingThreshold)),
        };
        match decode_usize(v.as_slice()) {
            Ok((t, _)) => Ok(t),
            Err(e) => Err(Error::Multiutil(e)),
        }
    }

    /// get the limit value for this multisig
    pub fn limit(&self) -> (r: Result<usize, Error>)
        ensures
            result_view(r) == limit_of(self.ms@),
    {
        let v = match self.ms.get_attr(AttrId::Limit) {
            Some(v) => v,
            None => return Err(Error::Attributes(AttributesError::MissingLimit)),
        };
        match decode_usize(v.as_slice()) {
            Ok((t, _)) => Ok(t),
            Err(e) => Err(Error::Multiutil(e)),
        }
    }

    /// get the share identifier
    pub fn identifier(&self) -> (r: Result<u8, Error>)
        ensures
            result_view(r) == identifier_of(self.ms@),
    {
        if self.ms.codec == BLS12381_G1_SIG_SHARE || self.ms.codec == BLS12381_G2_SIG_SHARE {
            let v = match self.ms.get_attr(AttrId::ShareIdentifier) {
                Some(v) => v,
                None => return Err(Error::Attributes(AttributesError::MissingIdentifier)),
            };
            match decode_u8(v.as_slice()) {
                Ok((id, _)) => Ok(id),
                Err(e) => Err(Error::Multiutil(e)),
            }
        } else {
            Err(Error::Shares(SharesError::NotASignatureShare))
        }
    }

    /// get the signature shares
    pub fn shares(&self) -> (r: Result<Vec<Multisig>, Error>)
        ensures
            match r {
                Ok(v) => shares_of(self.ms@) == Ok::<Seq<MultisigView>, ErrorView>(
                    multisig_views(v@),
                ),
                Err(e) => shares_of(self.ms@) == Err::<Seq<MultisigView>, ErrorView>(e@),
            },
    {
        // get the codec for the new share multisigs
        let codec = if self.ms.codec == BLS12381_G1_SIG {
            BLS12381_G1_SIG_SHARE
        } else if self.ms.codec == BLS12381_G2_SIG {
            BLS12381_G2_SIG_SHARE
        } else if self.ms.codec == BLS12381_G1_SIG_SHARE || self.ms.codec
            == BLS12381_G2_SIG_SHARE {
            return Err(Error::Shares(SharesError::IsASignatureShare));
        } else {
            return Err(Error::UnsupportedAlgorithm(codec_to_string(self.ms.codec)));
        };
        // current Multisig threshold data
        let threshold_data = self.ms.threshold_data()?;
        let ghost m = threshold_data@;
        let mut shares: Vec<Multisig> = Vec::new();
        if threshold_data.0.len() == 0 {
            proof {
                assert(m.dom() =~= threshold_data.0@.dom());
                assert(multisig_views(shares@) =~= Seq::<MultisigView>::empty());
            }
            return Ok(shares);
        }
        proof {
            assert(m.dom() =~= threshold_data.0@.dom());
            assert(!m.dom().is_empty()) by {
                if m.dom().is_empty() {
                    assert(m.dom() =~= Set::<u8>::empty());
                }
            }
        }
        // the payload encoding that every share keeps
        let encoding = {
            let av = self.ms.attr_view()?;
            av.payload_encoding()?
        };
        proof {
            assert(multisig_views(shares@) =~= Seq::<MultisigView>::empty());
        }
        let mut k: u16 = 0;
        while k < 256
            invariant
                k <= 256,
                m == threshold_data@,
                multisig_views(shares@) + share_multisigs_from(self.ms@, codec, m, encoding, k as nat)
                    == share_multisigs_from(self.ms@, codec, m, encoding, 0),
            decreases 256 - k,
        {
            let ghost before = multisig_views(shares@);
            match threshold_data.0.get(&(k as u8)) {
                Some(share) => {
                    // build a multisig share out of the share, preserve the
                    // message and the payload encoding value
                    let s = build_share(self.ms, codec, share, encoding);
                    shares.push(s);
                    proof {
                        assert(m.contains_key(k as u8));
                        assert(multisig_views(shares@) =~= before + seq![s@]);
                        assert(before + share_multisigs_from(self.ms@, codec, m, encoding, k as nat)
                            =~= multisig_views(shares@) + share_multisigs_from(
                            self.ms@,
                            codec,
                            m,
                            encoding,
                            (k + 1) as nat,
                        ));
                    }
                },
                None => {
                    proof {
                        assert(!m.contains_key(k as u8));
                        assert(before + share_multisigs_from(self.ms@, codec, m, encoding, k as nat)
                            =~= multisig_views(shares@) + share_multisigs_from(
                            self.ms@,
                            codec,
                            m,
                            encoding,
                            (k + 1) as nat,
                        ));
                    }
                },
            }
            k = k + 1;
        }
        proof {
            assert(multisig_views(shares@) + share_multisigs_from(self.ms@, codec, m, encoding, 256)
                =~= multisig_views(shares@));
        }
        Ok(shares)
    }

    /// add a new share and return the Multisig with the share added
    pub fn add_share(&self, share: &Multisig) -> (r: Result<Multisig, Error>)
        ensures
            match r {
                Ok(m) => add_share_of(self.ms@, share@) == Ok::<MultisigView, ErrorView>(m@),
                Err(e) => add_share_of(self.ms@, share@) == Err::<MultisigView, ErrorView>(e@),
            },
    {
        // check the codec is correct for this function
        if self.ms.codec == BLS12381_G1_SIG || self.ms.codec == BLS12381_G2_SIG {
        } else if self.ms.codec == BLS12381_G1_SIG_SHARE || self.ms.codec
            == BLS12381_G2_SIG_SHARE {
            return Err(Error::Shares(SharesError::IsASignatureShare));
        } else {
            return Err(Error::UnsupportedAlgorithm(codec_to_string(self.ms.codec)));
        }
        // get the share's share type out of the threshold data
        let v = match share.get_attr(AttrId::ThresholdData) {
            Some(v) => v,
            None => return Err(Error::Attributes(AttributesError::MissingThresholdData)),
        };
        let share_type = ShareTypeId::try_from_bytes(v.as_slice())?;
        // get the share's attributes
        let av = share.threshold_attr_view()?;
        let threshold = av.threshold()?;
        let limit = av.limit()?;
        let identifier = av.identifier()?;
        // get the share's signature data
        let dv = share.sig_data_view()?;
        let sig_bytes = dv.sig_bytes()?;
        let ghost sv = ShareView {
            id: identifier,
            threshold,
            limit,
            share_type,
            data: sig_bytes@,
        };
        let sdata = SigShare(identifier, threshold, limit, share_type, sig_bytes);
        // update the threshold data
        let mut tdata = self.ms.threshold_data()?;
        let ghost before = tdata@;
        tdata.0.insert(identifier, sdata);
        proof {
            assert(tdata@ =~= before.insert(identifier, sv));
        }
        let threshold_data = tdata.to_bytes();
        // the payload encoding of this multisig, if it has one
        let encoding = match self.payload_encoding() {
            Ok(e) => Some(e),
            Err(_) => None,
        };
        let mut attributes: BTreeMap<u8, Vec<u8>> = BTreeMap::new();
        attributes.insert(AttrId::Threshold.code(), encode_varint(threshold as u64));
        attributes.insert(AttrId::Limit.code(), encode_varint(limit as u64));
        attributes.insert(AttrId::ThresholdData.code(), threshold_data);
        if let Some(e) = encoding {
            attributes.insert(AttrId::PayloadEncoding.code(), encode_varint(e));
        }
        let r = Multisig { codec: self.ms.codec, message: copy_bytes(&self.ms.message), attributes };
        proof {
            let expected = added_multisig(self.ms@, before.insert(identifier, sv), threshold, limit);
            assert(r@.attributes =~= expected.attributes);
        }
        Ok(r)
    }

    /// reconstruct the signature from the shares
    pub fn combine(&self) -> (r: Result<Multisig, Error>)
        requires
            combine_inputs_fit(self.ms@),
        ensures
            match r {
                Ok(m) => combine_of(self.ms@) == Ok::<MultisigView, ErrorView>(m@),
                Err(e) => combine_of(self.ms@) == Err::<MultisigView, ErrorView>(e@),
            },
    {
        // current Multisig threshold data
        let threshold_data = self.ms.threshold_data()?;
        let ghost m = threshold_data@;
        // check that we have enough shares to combine
        let num_shares = threshold_data.0.len();
        proof {
            assert(m.dom() =~= threshold_data.0@.dom());
        }
        let av = self.ms.threshold_attr_view()?;
        if num_shares < av.threshold()? {
            return Err(Error::Shares(SharesError::NotEnoughShares));
        }
        let g1 = if self.ms.codec == BLS12381_G1_SIG {
            true
        } else if self.ms.codec == BLS12381_G2_SIG {
            false
        } else {
            return Err(Error::UnsupportedAlgorithm(codec_to_string(self.ms.codec)));
        };
        let ghost codec = self.ms.codec;
        let mut share_type_id: Option<ShareTypeId> = None;
        let ghost mut first_key: u8 = 0;
        let mut ids: Vec<u8> = Vec::new();
        let mut values: Vec<Vec<u8>> = Vec::new();
        proof {
            assert(byte_strings(values@) =~= Seq::<Seq<u8>>::empty());
            assert(ids@ =~= Seq::<u8>::empty());
        }
        let mut k: u16 = 0;
        while k < 256
            invariant
                k <= 256,
                m == threshold_data@,
                threshold_data_of(self.ms@) == Ok::<Map<u8, ShareView>, ErrorView>(m),
                view_of(self.ms@) == Ok::<(), ErrorView>(()),
                threshold_of(self.ms@) matches Ok(t) && m.len() >= t,
                codec == self.ms.codec,
                g1 <==> codec == BLS12381_G1_SIG,
                is_bls_sig_codec(codec),
                forall|j: u8|
                    #[trigger] m.contains_key(j) && types_agree_below(m, j) ==> m[j].data.len()
                        >= point_len(codec),
                ids@ + ids_from(m, k as nat) == ids_from(m, 0),
                byte_strings(values@) + values_from(m, k as nat) == values_from(m, 0),
                ids.len() == values.len(),
                forall|i: int| 0 <= i < values.len() ==> values[i].len() >= point_len(codec),
                share_type_id is None ==> (forall|a: u8| #[trigger] m.contains_key(a) ==> a >= k)
                    && first_type_from(m, 0) == first_type_from(m, k as nat),
                share_type_id matches Some(t) ==> {
                    &&& t == first_type_from(m, 0)
                    &&& m.contains_key(first_key)
                    &&& m[first_key].share_type == t
                    &&& forall|a: u8| #[trigger] m.contains_key(a) && a < k ==> m[a].share_type == t
                },
            decreases 256 - k,
        {
            let ghost ids_before = ids@;
            let ghost values_before = byte_strings(values@);
            match threshold_data.0.get(&(k as u8)) {
                Some(share) => {
                    proof {
                        assert(m.contains_key(k as u8));
                    }
                    // check to make sure all of the shares are of the same type
                    match share_type_id {
                        Some(sti) => {
                            if sti != share.3 {
                                proof {
                                    assert(m[first_key].share_type != m[k as u8].share_type);
                                    assert(!same_types(m));
                                }
                                return Err(Error::Shares(SharesError::ShareTypeMismatch));
                            }
                        },
                        None => {
                            share_type_id = Some(share.3);
                            proof {
                                first_key = k as u8;
                            }
                        },
                    }
                    proof {
                        assert(types_agree_below(m, k as u8));
                    }
                    ids.push(k as u8);
                    values.push(copy_bytes(&share.4));
                    proof {
                        assert(byte_strings(values@) =~= values_before + seq![m[k as u8].data]);
                        assert(ids_before + ids_from(m, k as nat) =~= ids@ + ids_from(
                            m,
                            (k + 1) as nat,
                        ));
                        assert(values_before + values_from(m, k as nat) =~= byte_strings(values@)
                            + values_from(m, (k + 1) as nat));
                    }
                },
                None => {
                    proof {
                        assert(!m.contains_key(k as u8));
                        assert(ids_before + ids_from(m, k as nat) =~= ids@ + ids_from(
                            m,
                            (k + 1) as nat,
                        ));
                        assert(values_before + values_from(m, k as nat) =~= byte_strings(values@)
                            + values_from(m, (k + 1) as nat));
                    }
                },
            }
            k = k + 1;
        }
        proof {
            assert(ids@ + ids_from(m, 256) =~= ids@);
            assert(byte_strings(values@) + values_from(m, 256) =~= byte_strings(values@));
            if share_type_id is None {
                assert(m.dom() =~= Set::<u8>::empty());
            }
            assert(same_types(m));
        }
        let scheme = match share_type_id {
            Some(t) => t,
            None => ShareTypeId::Basic,
        };
        let combined = if g1 {
            combine_g1_shares(scheme, &ids, &values)
        } else {
            combine_g2_shares(scheme, &ids, &values)
        };
        let sig = match combined {
            Ok(sig) => sig,
            Err(msg) => return Err(Error::Shares(SharesError::ShareCombineFailed(msg))),
        };
        let ghost sig_view = sig@;
        let encoding = if g1 {
            Some(self.payload_encoding()?)
        } else {
            match self.payload_encoding() {
                Ok(e) => Some(e),
                Err(_) => None,
            }
        };
        let mut attributes: BTreeMap<u8, Vec<u8>> = BTreeMap::new();
        attributes.insert(AttrId::SigData.code(), sig);
        attributes.insert(AttrId::Scheme.code(), encode_varint(scheme.code() as u64));
        if let Some(e) = encoding {
            attributes.insert(AttrId::PayloadEncoding.code(), encode_varint(e));
        }
        let r = Multisig { codec: self.ms.codec, message: copy_bytes(&self.ms.message), attributes };
        proof {
            let expected = combined_multisig(self.ms@, scheme, sig_view, encoding);
            assert(r@.attributes =~= expected.attributes);
        }
        Ok(r)
    }
}

} // verus!
