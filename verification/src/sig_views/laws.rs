//! Laws that relate the operations of the BLS12-381 view: what adding a
//! share records, and that an added share comes back out of the shares.
use crate::error::ErrorView;
use crate::multisig::{
    attr, codec_name, is_bls_codec, is_bls_share_codec, is_bls_sig_codec, AttrId, MultisigView,
    BLS12381_G1_SIG, BLS12381_G1_SIG_SHARE, BLS12381_G2_SIG, BLS12381_G2_SIG_SHARE,
};
use crate::error::{AttributesError, SharesErrorView};
use crate::sig_views::bls12381::{combine_of, first_type_from, ids_from, same_types};
use crate::sig_views::shares::{ascii_lower, ascii_lowercase, ShareTypeId};
use crate::varint::{read_u64, read_u8};
use crate::sig_views::bls12381::{
    add_share_of, added_multisig, identifier_of, limit_of, payload_encoding_of,
    share_codec_of, share_multisig, share_multisigs_from, shares_of, sig_bytes_of,
    threshold_data_of, threshold_of,
};
use crate::sig_views::shares::{
    lemma_read_threshold_data_well_keyed, lemma_share_type_roundtrip,
    lemma_threshold_data_roundtrip, read_share_type, read_threshold_data, share_type_bytes,
    shares_well_keyed, threshold_data_bytes, ShareView,
};
use crate::varint::{lemma_read_u64, lemma_read_u8, lemma_read_usize, varint_bytes};
use vstd::prelude::*;

verus! {

/// Every attribute value of `ms` fits in memory, as it does for the view of
/// any multisig.
pub open spec fn attributes_fit(ms: MultisigView) -> bool {
    forall|k: u8| #[trigger] ms.attributes.contains_key(k) ==> ms.attributes[k].len() <= usize::MAX
}

/// The share that `add_share` records for `share`, when it records one.
pub open spec fn recorded_share(share: MultisigView) -> ShareView {
    ShareView {
        id: identifier_of(share)->Ok_0,
        threshold: threshold_of(share)->Ok_0,
        limit: limit_of(share)->Ok_0,
        share_type: read_share_type(attr(share, AttrId::ThresholdData)->0)->Ok_0.0,
        data: sig_bytes_of(share)->Ok_0,
    }
}

/// Adding a share records it: the threshold data of the result holds the
/// shares of `ms` with the share added under its identifier (replacing a
/// share of the same identifier), the result has the threshold and the
/// limit of the share, and it keeps the payload encoding of `ms`.
pub proof fn lemma_add_share_records_share(ms: MultisigView, share: MultisigView)
    requires
        attributes_fit(share),
    ensures
        add_share_of(ms, share) matches Ok(r) ==> {
            &&& threshold_data_of(ms) matches Ok(m)
            &&& threshold_data_of(r) == Ok::<Map<u8, ShareView>, ErrorView>(
                m.insert(recorded_share(share).id, recorded_share(share)),
            )
            &&& threshold_of(r) == threshold_of(share)
            &&& limit_of(r) == limit_of(share)
            &&& payload_encoding_of(r) == payload_encoding_of(ms) || (payload_encoding_of(
                ms,
            ) is Err && payload_encoding_of(r) is Err)
            &&& r.codec == ms.codec
            &&& r.message == ms.message
        },
{
    if let Ok(r) = add_share_of(ms, share) {
        let m = threshold_data_of(ms)->Ok_0;
        let v = recorded_share(share);
        let m2 = m.insert(v.id, v);
        let t = threshold_of(share)->Ok_0;
        let l = limit_of(share)->Ok_0;
        assert(r == added_multisig(ms, m2, t, l));
        match attr(ms, AttrId::ThresholdData) {
            Some(b) => {
                lemma_read_threshold_data_well_keyed(b);
            },
            None => {
                assert(m.dom() =~= Set::<u8>::empty());
            },
        }
        assert(share.attributes.contains_key(AttrId::SigData.spec_code()));
        assert(shares_well_keyed(m2));
        lemma_threshold_data_roundtrip(m2, Seq::empty());
        assert(threshold_data_bytes(m2) + Seq::<u8>::empty() =~= threshold_data_bytes(m2));
        lemma_read_usize(t, Seq::empty());
        assert(varint_bytes(t as nat) + Seq::<u8>::empty() =~= varint_bytes(t as nat));
        lemma_read_usize(l, Seq::empty());
        assert(varint_bytes(l as nat) + Seq::<u8>::empty() =~= varint_bytes(l as nat));
        if let Ok(e) = payload_encoding_of(ms) {
            lemma_read_u64(e, Seq::empty());
            assert(varint_bytes(e as nat) + Seq::<u8>::empty() =~= varint_bytes(e as nat));
        }
    }
}

proof fn lemma_share_multisigs_contain(
    ms: MultisigView,
    codec: u64,
    m: Map<u8, ShareView>,
    encoding: u64,
    k: nat,
    id: u8,
)
    requires
        m.contains_key(id),
        k <= id,
    ensures
        share_multisigs_from(ms, codec, m, encoding, k).contains(
            share_multisig(ms, codec, m[id], encoding),
        ),
    decreases 256 - k,
{
    let x = share_multisig(ms, codec, m[id], encoding);
    let rest = share_multisigs_from(ms, codec, m, encoding, k + 1);
    if k == id {
        let here = seq![x];
        assert((here + rest)[0] == x);
    } else {
        lemma_share_multisigs_contain(ms, codec, m, encoding, k + 1, id);
        let j = choose|j: int| 0 <= j < rest.len() && rest[j] == x;
        let here = if m.contains_key(k as u8) {
            seq![share_multisig(ms, codec, m[k as u8], encoding)]
        } else {
            Seq::empty()
        };
        assert((here + rest)[here.len() + j] == x);
    }
}

/// A share added to a threshold signature that has a payload encoding comes
/// back out of `shares`: the shares of the result include the signature
/// share built from the recorded share.
pub proof fn lemma_added_share_comes_back(ms: MultisigView, share: MultisigView)
    requires
        attributes_fit(share),
        add_share_of(ms, share) is Ok,
        payload_encoding_of(ms) is Ok,
    ensures
        add_share_of(ms, share) matches Ok(r) && shares_of(r) matches Ok(shares) && shares.contains(
            share_multisig(
                r,
                share_codec_of(r.codec),
                recorded_share(share),
                payload_encoding_of(ms)->Ok_0,
            ),
        ),
{
    lemma_add_share_records_share(ms, share);
    let r = add_share_of(ms, share)->Ok_0;
    let v = recorded_share(share);
    let m2 = threshold_data_of(ms)->Ok_0.insert(v.id, v);
    assert(m2.contains_key(v.id));
    assert(!m2.dom().is_empty());
    lemma_share_multisigs_contain(
        r,
        share_codec_of(r.codec),
        m2,
        payload_encoding_of(ms)->Ok_0,
        0,
        v.id,
    );
}

/// A signature share split out of a threshold signature adds back as the
/// same share: adding it to any threshold signature whose shares can be read
/// records exactly the share it was built from.
pub proof fn lemma_split_share_adds_back(
    ms: MultisigView,
    codec: u64,
    v: ShareView,
    encoding: u64,
    target: MultisigView,
)
    requires
        is_bls_share_codec(codec),
        is_bls_sig_codec(target.codec),
        threshold_data_of(target) is Ok,
    ensures
        add_share_of(target, share_multisig(ms, codec, v, encoding)) is Ok,
        recorded_share(share_multisig(ms, codec, v, encoding)) == v,
{
    let x = share_multisig(ms, codec, v, encoding);
    lemma_read_u8(v.id, Seq::empty());
    assert(varint_bytes(v.id as nat) + Seq::<u8>::empty() =~= varint_bytes(v.id as nat));
    lemma_read_usize(v.threshold, Seq::empty());
    assert(varint_bytes(v.threshold as nat) + Seq::<u8>::empty() =~= varint_bytes(
        v.threshold as nat,
    ));
    lemma_read_usize(v.limit, Seq::empty());
    assert(varint_bytes(v.limit as nat) + Seq::<u8>::empty() =~= varint_bytes(v.limit as nat));
    lemma_share_type_roundtrip(v.share_type, Seq::empty());
    assert(share_type_bytes(v.share_type) + Seq::<u8>::empty() =~= share_type_bytes(
        v.share_type,
    ));
    assert(attr(x, AttrId::ShareIdentifier) == Some(varint_bytes(v.id as nat)));
    assert(attr(x, AttrId::Threshold) == Some(varint_bytes(v.threshold as nat)));
    assert(attr(x, AttrId::Limit) == Some(varint_bytes(v.limit as nat)));
    assert(attr(x, AttrId::SigData) == Some(v.data));
    assert(attr(x, AttrId::ThresholdData) == Some(share_type_bytes(v.share_type)));
}

/// What the payload encoding attribute of `ms` reads as, if it reads.
pub open spec fn encoding_read(ms: MultisigView) -> Option<u64> {
    match attr(ms, AttrId::PayloadEncoding) {
        Some(b) => match read_u64(b) {
            Ok((e, _)) => Some(e),
            Err(_) => None,
        },
        None => None,
    }
}

proof fn lemma_first_type_is_any(m: Map<u8, ShareView>, j: nat, k: u8)
    requires
        same_types(m),
        m.contains_key(k),
        j <= k,
    ensures
        first_type_from(m, j) == m[k].share_type,
    decreases 256 - j,
{
    if !m.contains_key(j as u8) {
        lemma_first_type_is_any(m, j + 1, k);
    } else {
        assert(m[j as u8].share_type == m[k].share_type);
    }
}

/// Combining keeps what the threshold signature says: a successful combine
/// gives a signature of the same codec, for the same message, whose payload
/// encoding reads as that of the threshold signature (and is absent when
/// that of the threshold signature does not read), whose scheme is the
/// share type of every collected share, and which collected at least as
/// many shares as the threshold.
pub proof fn lemma_combine_keeps_the_signature(ms: MultisigView)
    ensures
        combine_of(ms) matches Ok(r) ==> {
            &&& r.codec == ms.codec
            &&& r.message == ms.message
            &&& (ms.codec == BLS12381_G1_SIG || ms.codec == BLS12381_G2_SIG)
            &&& encoding_read(r) == encoding_read(ms)
            &&& (encoding_read(ms) is None ==> attr(r, AttrId::PayloadEncoding) is None)
            &&& (ms.codec == BLS12381_G1_SIG ==> encoding_read(ms) is Some)
            &&& attr(r, AttrId::SigData) is Some
            &&& forall|c: u8| #[trigger] r.attributes.contains_key(c) ==> c
                == AttrId::SigData.spec_code() || c == AttrId::Scheme.spec_code() || c
                == AttrId::PayloadEncoding.spec_code()
            &&& threshold_data_of(ms) matches Ok(m)
            &&& threshold_of(ms) matches Ok(t)
            &&& m.len() >= t
            &&& forall|k: u8| #[trigger] m.contains_key(k) ==> attr(r, AttrId::Scheme) == Some(
                varint_bytes(m[k].share_type.spec_code() as nat),
            )
        },
{
    if let Ok(r) = combine_of(ms) {
        let m = threshold_data_of(ms)->Ok_0;
        assert(same_types(m));
        assert forall|k: u8| #[trigger] m.contains_key(k) implies attr(r, AttrId::Scheme) == Some(
            varint_bytes(m[k].share_type.spec_code() as nat),
        ) by {
            lemma_first_type_is_any(m, 0, k);
        }
        match attr(ms, AttrId::PayloadEncoding) {
            Some(b) => {
                if let Ok((e, _)) = read_u64(b) {
                    lemma_read_u64(e, Seq::empty());
                    assert(varint_bytes(e as nat) + Seq::<u8>::empty() =~= varint_bytes(
                        e as nat,
                    ));
                }
            },
            None => {},
        }
    }
}

proof fn lemma_share_multisigs_shape(
    ms: MultisigView,
    codec: u64,
    m: Map<u8, ShareView>,
    encoding: u64,
    k: nat,
)
    ensures
        forall|i: int|
            0 <= i < share_multisigs_from(ms, codec, m, encoding, k).len() ==> {
                let x = #[trigger] share_multisigs_from(ms, codec, m, encoding, k)[i];
                &&& x.codec == codec
                &&& x.message == ms.message
                &&& attr(x, AttrId::PayloadEncoding) == Some(varint_bytes(encoding as nat))
            },
    decreases 256 - k,
{
    if k < 256 {
        lemma_share_multisigs_shape(ms, codec, m, encoding, k + 1);
        let rest = share_multisigs_from(ms, codec, m, encoding, k + 1);
        let here = if m.contains_key(k as u8) {
            seq![share_multisig(ms, codec, m[k as u8], encoding)]
        } else {
            Seq::empty()
        };
        assert forall|i: int| 0 <= i < (here + rest).len() implies {
            let x = #[trigger] (here + rest)[i];
            &&& x.codec == codec
            &&& x.message == ms.message
            &&& attr(x, AttrId::PayloadEncoding) == Some(varint_bytes(encoding as nat))
        } by {
            if i >= here.len() {
                assert((here + rest)[i] == rest[i - here.len()]);
            }
        }
    }
}

/// Splitting keeps the group: every share that `shares` gives for a G1
/// signature is a G1 share and for a G2 signature a G2 share, for the
/// message of the signature, with the payload encoding of the signature.
pub proof fn lemma_shares_keep_the_group(ms: MultisigView)
    ensures
        shares_of(ms) matches Ok(list) ==> forall|i: int|
            0 <= i < list.len() ==> {
                let x = #[trigger] list[i];
                &&& ms.codec == BLS12381_G1_SIG ==> x.codec == BLS12381_G1_SIG_SHARE
                &&& ms.codec == BLS12381_G2_SIG ==> x.codec == BLS12381_G2_SIG_SHARE
                &&& (ms.codec == BLS12381_G1_SIG || ms.codec == BLS12381_G2_SIG)
                &&& x.message == ms.message
                &&& encoding_read(x) == encoding_read(ms)
                &&& encoding_read(ms) is Some
            },
{
    if let Ok(list) = shares_of(ms) {
        if list.len() > 0 {
            let m = threshold_data_of(ms)->Ok_0;
            let e = payload_encoding_of(ms)->Ok_0;
            lemma_share_multisigs_shape(ms, share_codec_of(ms.codec), m, e, 0);
            lemma_read_u64(e, Seq::empty());
            assert(varint_bytes(e as nat) + Seq::<u8>::empty() =~= varint_bytes(e as nat));
            assert(encoding_read(ms) == Some(e));
        }
    }
}

proof fn lemma_share_multisigs_by_id(
    ms: MultisigView,
    codec: u64,
    m: Map<u8, ShareView>,
    encoding: u64,
    k: nat,
)
    ensures
        ({
            let list = share_multisigs_from(ms, codec, m, encoding, k);
            let ids = ids_from(m, k);
            &&& list.len() == ids.len()
            &&& forall|i: int|
                0 <= i < ids.len() ==> k <= #[trigger] ids[i] && m.contains_key(ids[i]) && list[i]
                    == share_multisig(ms, codec, m[ids[i]], encoding)
            &&& forall|i: int, j: int| 0 <= i < j < ids.len() ==> #[trigger] ids[i] < #[trigger] ids[j]
        }),
    decreases 256 - k,
{
    if k < 256 {
        lemma_share_multisigs_by_id(ms, codec, m, encoding, k + 1);
        let list = share_multisigs_from(ms, codec, m, encoding, k);
        let ids = ids_from(m, k);
        let rl = share_multisigs_from(ms, codec, m, encoding, k + 1);
        let ri = ids_from(m, k + 1);
        if m.contains_key(k as u8) {
            assert(list == seq![share_multisig(ms, codec, m[k as u8], encoding)] + rl);
            assert(ids == seq![k as u8] + ri);
            assert forall|i: int| 0 <= i < ids.len() implies k <= #[trigger] ids[i]
                && m.contains_key(ids[i]) && list[i] == share_multisig(ms, codec, m[ids[i]], encoding) by {
                if i > 0 {
                    assert(ids[i] == ri[i - 1]);
                    assert(list[i] == rl[i - 1]);
                }
            }
            assert forall|i: int, j: int| 0 <= i < j < ids.len() implies #[trigger] ids[i]
                < #[trigger] ids[j] by {
                assert(ids[j] == ri[j - 1]);
                if i > 0 {
                    assert(ids[i] == ri[i - 1]);
                }
            }
        } else {
            assert(list =~= rl);
            assert(ids =~= ri);
        }
    } else {
        assert(ids_from(m, k) =~= Seq::<u8>::empty());
    }
}

/// Splitting gives one share per collected share, in increasing order of
/// identifier: each returned share has the identifier, threshold, limit and
/// share bytes of a collected share with that identifier, and there are as
/// many as there are identifiers collected.
pub proof fn lemma_shares_are_the_collected_shares(ms: MultisigView)
    ensures
        shares_of(ms) matches Ok(list) ==> threshold_data_of(ms) matches Ok(m) && {
            &&& forall|i: int|
                #![trigger list[i]]
                0 <= i < list.len() ==> {
                    &&& identifier_of(list[i]) matches Ok(id)
                    &&& m.contains_key(id)
                    &&& threshold_of(list[i]) == Ok::<usize, ErrorView>(m[id].threshold)
                    &&& limit_of(list[i]) == Ok::<usize, ErrorView>(m[id].limit)
                    &&& sig_bytes_of(list[i]) == Ok::<Seq<u8>, ErrorView>(m[id].data)
                }
            &&& forall|i: int, j: int|
                #![trigger list[i], list[j]]
                0 <= i < j < list.len() ==> identifier_of(list[i])->Ok_0 < identifier_of(
                    list[j],
                )->Ok_0
            &&& forall|id: u8| #[trigger] m.contains_key(id) ==> exists|i: int|
                0 <= i < list.len() && identifier_of(list[i]) == Ok::<u8, ErrorView>(id)
        },
{
    if let Ok(list) = shares_of(ms) {
        let m = threshold_data_of(ms)->Ok_0;
        match attr(ms, AttrId::ThresholdData) {
            Some(b) => {
                lemma_read_threshold_data_well_keyed(b);
            },
            None => {
                assert(m.dom() =~= Set::<u8>::empty());
            },
        }
        if m.dom().is_empty() {
            assert forall|id: u8| #[trigger] m.contains_key(id) implies exists|i: int|
                0 <= i < list.len() && identifier_of(list[i]) == Ok::<u8, ErrorView>(id) by {
                assert(m.dom().contains(id));
            }
        } else {
            let e = payload_encoding_of(ms)->Ok_0;
            let codec = share_codec_of(ms.codec);
            lemma_share_multisigs_by_id(ms, codec, m, e, 0);
            let ids = ids_from(m, 0);
            assert forall|i: int| 0 <= i < ids.len() implies identifier_of(#[trigger] list[i])
                == Ok::<u8, ErrorView>(ids[i]) && threshold_of(list[i]) == Ok::<usize, ErrorView>(
                m[ids[i]].threshold,
            ) && limit_of(list[i]) == Ok::<usize, ErrorView>(m[ids[i]].limit) && sig_bytes_of(
                list[i],
            ) == Ok::<Seq<u8>, ErrorView>(m[ids[i]].data) by {
                let v = m[ids[i]];
                lemma_read_u8(v.id, Seq::empty());
                assert(varint_bytes(v.id as nat) + Seq::<u8>::empty() =~= varint_bytes(v.id as nat));
                lemma_read_usize(v.threshold, Seq::empty());
                assert(varint_bytes(v.threshold as nat) + Seq::<u8>::empty() =~= varint_bytes(
                    v.threshold as nat,
                ));
                lemma_read_usize(v.limit, Seq::empty());
                assert(varint_bytes(v.limit as nat) + Seq::<u8>::empty() =~= varint_bytes(
                    v.limit as nat,
                ));
                assert(m.contains_key(ids[i]));
            }
            assert forall|id: u8| #[trigger] m.contains_key(id) implies exists|i: int|
                0 <= i < list.len() && identifier_of(list[i]) == Ok::<u8, ErrorView>(id) by {
                lemma_id_listed(m, 0, id);
                let i = choose|i: int| 0 <= i < ids.len() && ids[i] == id;
                assert(identifier_of(list[i]) == Ok::<u8, ErrorView>(ids[i]));
            }
        }
    }
}

proof fn lemma_id_listed(m: Map<u8, ShareView>, k: nat, id: u8)
    requires
        m.contains_key(id),
        k <= id,
    ensures
        exists|i: int| 0 <= i < ids_from(m, k).len() && ids_from(m, k)[i] == id,
    decreases 256 - k,
{
    let ri = ids_from(m, k + 1);
    if k == id {
        assert(ids_from(m, k) == seq![k as u8] + ri);
        assert(ids_from(m, k)[0] == id);
    } else {
        lemma_id_listed(m, k + 1, id);
        let j = choose|j: int| 0 <= j < ri.len() && ri[j] == id;
        if m.contains_key(k as u8) {
            assert(ids_from(m, k) == seq![k as u8] + ri);
            assert(ids_from(m, k)[j + 1] == id);
        } else {
            assert(ids_from(m, k) == ri);
        }
    }
}

/// The threshold, limit, share identifier and payload encoding of a
/// BLS12-381 multisig read back as the varints written in its attributes;
/// only a share has an identifier.
pub proof fn lemma_attributes_read_back(
    ms: MultisigView,
    t: usize,
    l: usize,
    id: u8,
    e: u64,
    rest: Seq<u8>,
)
    ensures
        attr(ms, AttrId::Threshold) == Some(varint_bytes(t as nat) + rest) ==> threshold_of(ms)
            == Ok::<usize, ErrorView>(t),
        attr(ms, AttrId::Limit) == Some(varint_bytes(l as nat) + rest) ==> limit_of(ms) == Ok::<
            usize,
            ErrorView,
        >(l),
        attr(ms, AttrId::PayloadEncoding) == Some(varint_bytes(e as nat) + rest)
            ==> payload_encoding_of(ms) == Ok::<u64, ErrorView>(e),
        is_bls_share_codec(ms.codec) && attr(ms, AttrId::ShareIdentifier) == Some(
            varint_bytes(id as nat) + rest,
        ) ==> identifier_of(ms) == Ok::<u8, ErrorView>(id),
        is_bls_sig_codec(ms.codec) ==> identifier_of(ms) == Err::<u8, ErrorView>(
            ErrorView::Shares(SharesErrorView::NotASignatureShare),
        ),
        attr(ms, AttrId::Threshold) is None ==> threshold_of(ms) == Err::<usize, ErrorView>(
            ErrorView::Attributes(AttributesError::MissingThreshold),
        ),
        attr(ms, AttrId::Limit) is None ==> limit_of(ms) == Err::<usize, ErrorView>(
            ErrorView::Attributes(AttributesError::MissingLimit),
        ),
        attr(ms, AttrId::PayloadEncoding) is None ==> payload_encoding_of(ms) == Err::<
            u64,
            ErrorView,
        >(ErrorView::Attributes(AttributesError::MissingPayloadEncoding)),
{
    lemma_read_usize(t, rest);
    lemma_read_usize(l, rest);
    lemma_read_u64(e, rest);
    lemma_read_u8(id, rest);
}

/// What the view refuses: shares cannot be split or have shares added,
/// other algorithms are not supported, and combining needs at least as many
/// shares as the threshold, all of one share type.
pub proof fn lemma_refusals(ms: MultisigView, share: MultisigView)
    ensures
        is_bls_share_codec(ms.codec) ==> add_share_of(ms, share) == Err::<MultisigView, ErrorView>(
            ErrorView::Shares(SharesErrorView::IsASignatureShare),
        ) && shares_of(ms) == Err::<Seq<MultisigView>, ErrorView>(
            ErrorView::Shares(SharesErrorView::IsASignatureShare),
        ),
        !is_bls_codec(ms.codec) ==> add_share_of(ms, share) == Err::<MultisigView, ErrorView>(
            ErrorView::UnsupportedAlgorithm(codec_name(ms.codec)),
        ) && shares_of(ms) == Err::<Seq<MultisigView>, ErrorView>(
            ErrorView::UnsupportedAlgorithm(codec_name(ms.codec)),
        ),
        !is_bls_codec(ms.codec) && threshold_data_of(ms) is Ok ==> combine_of(ms) == Err::<
            MultisigView,
            ErrorView,
        >(ErrorView::UnsupportedAlgorithm(codec_name(ms.codec))),
        threshold_data_of(ms) matches Ok(m) ==> (threshold_of(ms) matches Ok(t) ==> (
        is_bls_codec(ms.codec) && m.len() < t ==> combine_of(ms) == Err::<MultisigView, ErrorView>(
            ErrorView::Shares(SharesErrorView::NotEnoughShares),
        ))),
        threshold_data_of(ms) matches Ok(m) ==> (threshold_of(ms) matches Ok(t) ==> (
        is_bls_sig_codec(ms.codec) && m.len() >= t && (exists|a: u8, b: u8|
            m.contains_key(a) && m.contains_key(b) && #[trigger] m[a].share_type
                != #[trigger] m[b].share_type) ==> combine_of(ms) == Err::<MultisigView, ErrorView>(
            ErrorView::Shares(SharesErrorView::ShareTypeMismatch),
        ))),
{
}

/// The signature bytes of any BLS12-381 multisig, signature or share, are
/// its signature data attribute, and only its absence is an error.
pub proof fn lemma_sig_bytes_are_the_sig_data(ms: MultisigView)
    requires
        is_bls_codec(ms.codec),
    ensures
        attr(ms, AttrId::SigData) matches Some(b) ==> sig_bytes_of(ms) == Ok::<
            Seq<u8>,
            ErrorView,
        >(b),
        attr(ms, AttrId::SigData) is None ==> sig_bytes_of(ms) == Err::<Seq<u8>, ErrorView>(
            ErrorView::Attributes(AttributesError::MissingSignature),
        ),
{
}

/// The ASCII upper case of a character.
pub open spec fn ascii_upper(c: char) -> char {
    if 'a' <= c && c <= 'z' {
        ((c as u32) - 32) as char
    } else {
        c
    }
}

/// ASCII lowercase turns every upper-case letter into its lower-case letter
/// and leaves every other character alone, so the name of a share type
/// written in upper case reads back as that share type.
pub proof fn lemma_upper_case_names_read_back(t: ShareTypeId, c: char)
    ensures
        'A' <= c && c <= 'Z' ==> ascii_lower(c) as u32 == c as u32 + 32,
        !('A' <= c && c <= 'Z') ==> ascii_lower(c) == c,
        ShareTypeId::from_name(ascii_lowercase(t.spec_name().map_values(|x: char| ascii_upper(x))))
            == Some(t),
{
    reveal_strlit("basic");
    reveal_strlit("message-augmentation");
    reveal_strlit("proof-of-possession");
    let n = t.spec_name();
    let u = n.map_values(|x: char| ascii_upper(x));
    assert forall|i: int| 0 <= i < n.len() implies ascii_lower(ascii_upper(#[trigger] n[i]))
        == n[i] by {
        let x = n[i];
        assert(x == '-' || ('a' <= x && x <= 'z'));
    }
    assert(ascii_lowercase(u) =~= n);
    assert("basic"@ != "message-augmentation"@);
    assert("basic"@ != "proof-of-possession"@);
    assert("message-augmentation"@[0] != "proof-of-possession"@[0]);
}

} // verus!
