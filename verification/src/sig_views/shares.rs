//! BLS12-381 signature shares: the share type, a single share, and the
//! threshold data that collects the shares of one signature, with their
//! wire encodings.
use crate::error::{Error, ErrorView, SharesError, SharesErrorView, result_view};
use crate::varint::{
    decode_u8, decode_usize, encode_varint, lemma_read_u8, lemma_read_u8_canonical,
    lemma_read_usize, lemma_read_usize_canonical, read_u8, read_usize, varint_bytes, VarintError,
};
use std::collections::BTreeMap;
use vstd::prelude::*;

verus! {

/// The signature scheme a share was made with.
#[derive(Clone, Copy, Debug, Hash, PartialEq, Eq, Structural, PartialOrd, Ord)]
pub enum ShareTypeId {
    /// Basic
    Basic,
    /// Message Augmentation
    MessageAugmentation,
    /// ProofOfPossession
    ProofOfPossession,
}

impl ShareTypeId {
    /// The code of the share type.
    pub open spec fn spec_code(self) -> u8 {
        match self {
            ShareTypeId::Basic => 0,
            ShareTypeId::MessageAugmentation => 1,
            ShareTypeId::ProofOfPossession => 2,
        }
    }

    /// The share type with the given code.
    pub open spec fn from_code(c: u8) -> Option<ShareTypeId> {
        if c == 0 {
            Some(ShareTypeId::Basic)
        } else if c == 1 {
            Some(ShareTypeId::MessageAugmentation)
        } else if c == 2 {
            Some(ShareTypeId::ProofOfPossession)
        } else {
            None
        }
    }

    /// The name of the share type.
    pub open spec fn spec_name(self) -> Seq<char> {
        match self {
            ShareTypeId::Basic => "basic"@,
            ShareTypeId::MessageAugmentation => "message-augmentation"@,
            ShareTypeId::ProofOfPossession => "proof-of-possession"@,
        }
    }

    /// The share type with the given name.
    pub open spec fn from_name(n: Seq<char>) -> Option<ShareTypeId> {
        if n == "basic"@ {
            Some(ShareTypeId::Basic)
        } else if n == "message-augmentation"@ {
            Some(ShareTypeId::MessageAugmentation)
        } else if n == "proof-of-possession"@ {
            Some(ShareTypeId::ProofOfPossession)
        } else {
            None
        }
    }

    /// Get the code for the attribute id
    pub fn code(&self) -> (r: u8)
        ensures
            r == self.spec_code(),
    {
        match self {
            ShareTypeId::Basic => 0,
            ShareTypeId::MessageAugmentation => 1,
            ShareTypeId::ProofOfPossession => 2,
        }
    }

    /// Convert the attribute id to &str
    pub fn as_str(&self) -> (r: &str)
        ensures
            r@ == self.spec_name(),
    {
        match self {
            ShareTypeId::Basic => "basic",
            ShareTypeId::MessageAugmentation => "message-augmentation",
            ShareTypeId::ProofOfPossession => "proof-of-possession",
        }
    }

    /// The name of the share type, as its textual form.
    pub fn to_display_string(&self) -> (r: String)
        ensures
            r@ == self.spec_name(),
    {
        String::from_str(self.as_str())
    }

    /// The share type with the given code.
    pub fn try_from_code(c: u8) -> (r: Result<ShareTypeId, Error>)
        ensures
            result_view(r) == match ShareTypeId::from_code(c) {
                Some(t) => Ok(t),
                None => Err(ErrorView::Shares(SharesErrorView::InvalidShareTypeId(c))),
            },
    {
        match c {
            0 => Ok(ShareTypeId::Basic),
            1 => Ok(ShareTypeId::MessageAugmentation),
            2 => Ok(ShareTypeId::ProofOfPossession),
            _ => Err(Error::Shares(SharesError::InvalidShareTypeId(c))),
        }
    }

    /// The share type whose name is `s`, ignoring ASCII case.
    pub fn try_from_name(s: &str) -> (r: Result<ShareTypeId, Error>)
        ensures
            result_view(r) == match ShareTypeId::from_name(ascii_lowercase(s@)) {
                Some(t) => Ok(t),
                None => Err(ErrorView::Shares(SharesErrorView::InvalidShareTypeName(s@))),
            },
    {
        let lower = lowercase_chars(s);
        proof {
            reveal_strlit("basic");
            reveal_strlit("message-augmentation");
            reveal_strlit("proof-of-possession");
        }
        let basic = ['b', 'a', 's', 'i', 'c'];
        assert(basic@ =~= "basic"@);
        if chars_equal(&lower, &basic) {
            return Ok(ShareTypeId::Basic);
        }
        let ma = [
            'm', 'e', 's', 's', 'a', 'g', 'e', '-', 'a', 'u', 'g', 'm', 'e', 'n', 't', 'a', 't',
            'i', 'o', 'n',
        ];
        assert(ma@ =~= "message-augmentation"@);
        if chars_equal(&lower, &ma) {
            return Ok(ShareTypeId::MessageAugmentation);
        }
        let pop = [
            'p', 'r', 'o', 'o', 'f', '-', 'o', 'f', '-', 'p', 'o', 's', 's', 'e', 's', 's', 'i',
            'o', 'n',
        ];
        assert(pop@ =~= "proof-of-possession"@);
        assert(ma@ != pop@) by {
            assert(ma@[0] != pop@[0]);
        }
        if chars_equal(&lower, &pop) {
            return Ok(ShareTypeId::ProofOfPossession);
        }
        Err(Error::Shares(SharesError::InvalidShareTypeName(String::from_str(s))))
    }
}

/// The wire form of a share type: its code as a varint.
pub open spec fn share_type_bytes(t: ShareTypeId) -> Seq<u8> {
    varint_bytes(t.spec_code() as nat)
}

/// Reading a share type from the front of `s`: the share type and the
/// bytes after it.
pub open spec fn read_share_type(s: Seq<u8>) -> Result<(ShareTypeId, Seq<u8>), ErrorView> {
    match read_u8(s) {
        Err(e) => Err(ErrorView::Multitrait(e)),
        Ok((c, rest)) => match ShareTypeId::from_code(c) {
            Some(t) => Ok((t, rest)),
            None => Err(ErrorView::Shares(SharesErrorView::InvalidShareTypeId(c))),
        },
    }
}

impl ShareTypeId {
    /// The wire form of the share type.
    pub fn to_bytes(&self) -> (r: Vec<u8>)
        ensures
            r@ == share_type_bytes(*self),
    {
        encode_varint(self.code() as u64)
    }

    /// Reads a share type from the front of `bytes`; returns it with the
    /// bytes after it.
    pub fn try_decode_from<'a>(bytes: &'a [u8]) -> (r: Result<(ShareTypeId, &'a [u8]), Error>)
        ensures
            match r {
                Ok((t, rest)) => read_share_type(bytes@) == Ok::<
                    (ShareTypeId, Seq<u8>),
                    ErrorView,
                >((t, rest@)),
                Err(e) => read_share_type(bytes@) == Err::<(ShareTypeId, Seq<u8>), ErrorView>(
                    e@,
                ),
            },
    {
        let (code, ptr) = match decode_u8(bytes) {
            Ok(x) => x,
            Err(e) => return Err(Error::Multitrait(e)),
        };
        let t = ShareTypeId::try_from_code(code)?;
        Ok((t, ptr))
    }

    /// The share type at the front of `bytes`.
    pub fn try_from_bytes(bytes: &[u8]) -> (r: Result<ShareTypeId, Error>)
        ensures
            result_view(r) == match read_share_type(bytes@) {
                Ok((t, _)) => Ok::<ShareTypeId, ErrorView>(t),
                Err(e) => Err(e),
            },
    {
        let (t, _) = ShareTypeId::try_decode_from(bytes)?;
        Ok(t)
    }
}

impl Default for ShareTypeId {
    fn default() -> (r: ShareTypeId)
        ensures
            r == ShareTypeId::Basic,
    {
        ShareTypeId::Basic
    }
}

impl From<ShareTypeId> for u8 {
    fn from(t: ShareTypeId) -> (r: u8) {
        t.code()
    }
}

impl vstd::std_specs::convert::FromSpecImpl<ShareTypeId> for u8 {
    open spec fn obeys_from_spec() -> bool {
        true
    }

    open spec fn from_spec(t: ShareTypeId) -> u8 {
        t.spec_code()
    }
}

/// A share type written and read back is the same share type.
pub proof fn lemma_share_type_roundtrip(t: ShareTypeId, rest: Seq<u8>)
    ensures
        read_share_type(share_type_bytes(t) + rest) == Ok::<(ShareTypeId, Seq<u8>), ErrorView>(
            (t, rest),
        ),
        ShareTypeId::from_code(t.spec_code()) == Some(t),
{
    lemma_read_u8(t.spec_code(), rest);
}

/// One share of a threshold signature: its identifier, the threshold and
/// the limit of the sharing, its share type, and the share bytes.
#[derive(Clone, Debug)]
pub struct SigShare(pub u8, pub usize, pub usize, pub ShareTypeId, pub Vec<u8>);

/// What a `SigShare` holds.
pub struct ShareView {
    pub id: u8,
    pub threshold: usize,
    pub limit: usize,
    pub share_type: ShareTypeId,
    pub data: Seq<u8>,
}

impl View for SigShare {
    type V = ShareView;

    open spec fn view(&self) -> ShareView {
        ShareView {
            id: self.0,
            threshold: self.1,
            limit: self.2,
            share_type: self.3,
            data: self.4@,
        }
    }
}

/// The wire form of a byte string: its length as a varint, then the bytes.
pub open spec fn varbytes(d: Seq<u8>) -> Seq<u8> {
    varint_bytes(d.len()) + d
}

/// Reading a length-prefixed byte string from the front of `s`: the bytes
/// and the bytes after them.
pub open spec fn read_varbytes(s: Seq<u8>) -> Result<(Seq<u8>, Seq<u8>), ErrorView> {
    match read_usize(s) {
        Err(e) => Err(ErrorView::Multiutil(e)),
        Ok((len, rest)) => if len > rest.len() {
            Err(ErrorView::Multiutil(VarintError::Insufficient))
        } else {
            Ok((rest.take(len as int), rest.skip(len as int)))
        },
    }
}

/// The wire form of a share: identifier, threshold and limit as varints,
/// the share type, then the share bytes with their length.
pub open spec fn share_bytes(v: ShareView) -> Seq<u8> {
    varint_bytes(v.id as nat) + varint_bytes(v.threshold as nat) + varint_bytes(v.limit as nat)
        + share_type_bytes(v.share_type) + varbytes(v.data)
}

/// Reading a share from the front of `s`: the share and the bytes after it.
pub open spec fn read_share(s: Seq<u8>) -> Result<(ShareView, Seq<u8>), ErrorView> {
    match read_u8(s) {
        Err(e) => Err(ErrorView::Multiutil(e)),
        Ok((id, s1)) => match read_usize(s1) {
            Err(e) => Err(ErrorView::Multiutil(e)),
            Ok((threshold, s2)) => match read_usize(s2) {
                Err(e) => Err(ErrorView::Multiutil(e)),
                Ok((limit, s3)) => match read_share_type(s3) {
                    Err(e) => Err(e),
                    Ok((share_type, s4)) => match read_varbytes(s4) {
                        Err(e) => Err(e),
                        Ok((data, s5)) => Ok(
                            (ShareView { id, threshold, limit, share_type, data }, s5),
                        ),
                    },
                },
            },
        },
    }
}

/// Reads a length-prefixed byte string from the front of `bytes`.
fn decode_varbytes<'a>(bytes: &'a [u8]) -> (r: Result<(Vec<u8>, &'a [u8]), Error>)
    ensures
        match r {
            Ok((d, rest)) => read_varbytes(bytes@) == Ok::<(Seq<u8>, Seq<u8>), ErrorView>(
                (d@, rest@),
            ),
            Err(e) => read_varbytes(bytes@) == Err::<(Seq<u8>, Seq<u8>), ErrorView>(e@),
        },
{
    let (len, ptr) = match decode_usize(bytes) {
        Ok(x) => x,
        Err(e) => return Err(Error::Multiutil(e)),
    };
    if len > ptr.len() {
        return Err(Error::Multiutil(VarintError::Insufficient));
    }
    let data = vstd::slice::slice_to_vec(vstd::slice::slice_subrange(ptr, 0, len));
    let rest = vstd::slice::slice_subrange(ptr, len, ptr.len());
    proof {
        assert(data@ =~= ptr@.take(len as int));
        assert(rest@ =~= ptr@.skip(len as int));
    }
    Ok((data, rest))
}

impl SigShare {
    /// The wire form of the share.
    pub fn to_bytes(&self) -> (r: Vec<u8>)
        ensures
            r@ == share_bytes(self@),
    {
        let mut v = encode_varint(self.0 as u64);
        let mut t = encode_varint(self.1 as u64);
        v.append(&mut t);
        let mut l = encode_varint(self.2 as u64);
        v.append(&mut l);
        let mut st = self.3.to_bytes();
        v.append(&mut st);
        let mut len = encode_varint(self.4.len() as u64);
        v.append(&mut len);
        let mut data = vstd::slice::slice_to_vec(self.4.as_slice());
        v.append(&mut data);
        v
    }

    /// Reads a share from the front of `bytes`; returns it with the bytes
    /// after it.
    pub fn try_decode_from<'a>(bytes: &'a [u8]) -> (r: Result<(SigShare, &'a [u8]), Error>)
        ensures
            match r {
                Ok((s, rest)) => read_share(bytes@) == Ok::<(ShareView, Seq<u8>), ErrorView>(
                    (s@, rest@),
                ),
                Err(e) => read_share(bytes@) == Err::<(ShareView, Seq<u8>), ErrorView>(e@),
            },
    {
        let (id, ptr) = match decode_u8(bytes) {
            Ok(x) => x,
            Err(e) => return Err(Error::Multiutil(e)),
        };
        let (threshold, ptr) = match decode_usize(ptr) {
            Ok(x) => x,
            Err(e) => return Err(Error::Multiutil(e)),
        };
        let (limit, ptr) = match decode_usize(ptr) {
            Ok(x) => x,
            Err(e) => return Err(Error::Multiutil(e)),
        };
        let (share_type, ptr) = ShareTypeId::try_decode_from(ptr)?;
        let (share_data, ptr) = decode_varbytes(ptr)?;
        Ok((SigShare(id, threshold, limit, share_type, share_data), ptr))
    }

    /// The share at the front of `bytes`.
    pub fn try_from_bytes(bytes: &[u8]) -> (r: Result<SigShare, Error>)
        ensures
            match r {
                Ok(s) => read_share(bytes@) matches Ok((v, _)) && v == s@,
                Err(e) => read_share(bytes@) == Err::<(ShareView, Seq<u8>), ErrorView>(e@),
            },
    {
        let (share, _) = SigShare::try_decode_from(bytes)?;
        Ok(share)
    }
}

/// A share written and read back is the same share, and the bytes after it
/// are left as they were.
#[verifier::rlimit(40)]
pub proof fn lemma_share_roundtrip(v: ShareView, rest: Seq<u8>)
    requires
        v.data.len() <= usize::MAX,
    ensures
        read_share(share_bytes(v) + rest) == Ok::<(ShareView, Seq<u8>), ErrorView>((v, rest)),
{
    let a = varint_bytes(v.id as nat);
    let b = varint_bytes(v.threshold as nat);
    let c = varint_bytes(v.limit as nat);
    let d = share_type_bytes(v.share_type);
    let e = varint_bytes(v.data.len());
    let s5 = rest;
    let s4 = varbytes(v.data) + s5;
    let s3 = d + s4;
    let s2 = c + s3;
    let s1 = b + s2;
    assert(share_bytes(v) + rest =~= a + s1);
    lemma_read_u8(v.id, s1);
    lemma_read_usize(v.threshold, s2);
    lemma_read_usize(v.limit, s3);
    lemma_share_type_roundtrip(v.share_type, s4);
    assert(s4 =~= e + (v.data + s5));
    lemma_read_usize(v.data.len() as usize, v.data + s5);
    assert((v.data + s5).take(v.data.len() as int) =~= v.data);
    assert((v.data + s5).skip(v.data.len() as int) =~= s5);
}

/// A share that was read stands in front of the bytes after it in its own
/// wire form: each share has exactly one wire form.
pub proof fn lemma_share_canonical(s: Seq<u8>)
    ensures
        read_share(s) matches Ok((v, rest)) ==> s == share_bytes(v) + rest,
{
    if let Ok((id, s1)) = read_u8(s) {
        lemma_read_u8_canonical(s);
        if let Ok((threshold, s2)) = read_usize(s1) {
            lemma_read_usize_canonical(s1);
            if let Ok((limit, s3)) = read_usize(s2) {
                lemma_read_usize_canonical(s2);
                if let Ok((share_type, s4)) = read_share_type(s3) {
                    lemma_share_type_canonical(s3);
                    if let Ok((data, rest)) = read_varbytes(s4) {
                        lemma_read_usize_canonical(s4);
                        let (len, s5) = read_usize(s4)->Ok_0;
                        assert(s5 =~= data + rest);
                        assert(s4 == varbytes(data) + rest) by {
                            assert(varint_bytes(len as nat) + (data + rest) =~= varbytes(data)
                                + rest);
                        }
                        let v = ShareView { id, threshold, limit, share_type, data };
                        assert(read_share(s) == Ok::<(ShareView, Seq<u8>), ErrorView>((v, rest)));
                        assert(s =~= share_bytes(v) + rest);
                    }
                }
            }
        }
    }
}

/// A share type that was read stands in front of the bytes after it in its
/// own wire form.
pub proof fn lemma_share_type_canonical(s: Seq<u8>)
    ensures
        read_share_type(s) matches Ok((t, rest)) ==> s == share_type_bytes(t) + rest,
{
    lemma_read_u8_canonical(s);
}

/// The name of a share type reads back, whatever the ASCII case of its
/// letters.
pub proof fn lemma_share_type_name_roundtrip(t: ShareTypeId)
    ensures
        ShareTypeId::from_name(ascii_lowercase(t.spec_name())) == Some(t),
{
    reveal_strlit("basic");
    reveal_strlit("message-augmentation");
    reveal_strlit("proof-of-possession");
    assert(ascii_lowercase("basic"@) =~= "basic"@);
    assert(ascii_lowercase("message-augmentation"@) =~= "message-augmentation"@);
    assert(ascii_lowercase("proof-of-possession"@) =~= "proof-of-possession"@);
    assert("basic"@ != "message-augmentation"@);
    assert("basic"@ != "proof-of-possession"@);
    assert("message-augmentation"@[0] != "proof-of-possession"@[0]);
}

/// The shares of a threshold signature, by share identifier.
#[derive(Clone, Debug)]
pub struct ThresholdData(pub BTreeMap<u8, SigShare>);

impl View for ThresholdData {
    type V = Map<u8, ShareView>;

    open spec fn view(&self) -> Map<u8, ShareView> {
        self.0@.map_values(|s: SigShare| s@)
    }
}

/// The wire forms of the shares of `m` whose identifiers are `k` or more,
/// in increasing order of identifier.
pub open spec fn shares_bytes_from(m: Map<u8, ShareView>, k: nat) -> Seq<u8>
    decreases 256 - k,
{
    if k >= 256 {
        Seq::empty()
    } else {
        let here = if m.contains_key(k as u8) {
            share_bytes(m[k as u8])
        } else {
            Seq::empty()
        };
        here + shares_bytes_from(m, k + 1)
    }
}

/// The wire form of threshold data: the number of shares as a varint, then
/// the shares in increasing order of identifier.
pub open spec fn threshold_data_bytes(m: Map<u8, ShareView>) -> Seq<u8> {
    varint_bytes(m.len()) + shares_bytes_from(m, 0)
}

/// Reading `count` shares from the front of `s`, each added to `acc` under
/// its own identifier (a later share replaces an earlier one of the same
/// identifier): the shares and the bytes after them.
pub open spec fn read_shares(s: Seq<u8>, count: nat, acc: Map<u8, ShareView>) -> Result<
    (Map<u8, ShareView>, Seq<u8>),
    ErrorView,
>
    decreases count,
{
    if count == 0 {
        Ok((acc, s))
    } else {
        match read_share(s) {
            Err(e) => Err(e),
            Ok((v, rest)) => read_shares(rest, (count - 1) as nat, acc.insert(v.id, v)),
        }
    }
}

/// Reading threshold data from the front of `s`: the shares and the bytes
/// after them.
pub open spec fn read_threshold_data(s: Seq<u8>) -> Result<
    (Map<u8, ShareView>, Seq<u8>),
    ErrorView,
> {
    match read_usize(s) {
        Err(e) => Err(ErrorView::Multiutil(e)),
        Ok((n, rest)) => read_shares(rest, n as nat, Map::empty()),
    }
}

/// Every share of `m` is kept under its own identifier and its bytes fit
/// the length prefix.
pub open spec fn shares_well_keyed(m: Map<u8, ShareView>) -> bool {
    forall|k: u8| #[trigger] m.contains_key(k) ==> m[k].id == k && m[k].data.len() <= usize::MAX
}

impl ThresholdData {
    /// Threshold data without shares.
    pub fn new() -> (r: ThresholdData)
        ensures
            r@ == Map::<u8, ShareView>::empty(),
    {
        let r = ThresholdData(BTreeMap::new());
        proof {
            assert(r@ =~= Map::<u8, ShareView>::empty());
        }
        r
    }

    /// The wire form of the threshold data.
    pub fn to_bytes(&self) -> (r: Vec<u8>)
        ensures
            r@ == threshold_data_bytes(self@),
    {
        proof {
            assert(self@.dom() =~= self.0@.dom());
        }
        let mut v = encode_varint(self.0.len() as u64);
        let mut k: u16 = 0;
        while k < 256
            invariant
                k <= 256,
                v@ + shares_bytes_from(self@, k as nat) == threshold_data_bytes(self@),
            decreases 256 - k,
        {
            let ghost before = v@;
            match self.0.get(&(k as u8)) {
                Some(share) => {
                    let mut b = share.to_bytes();
                    v.append(&mut b);
                    proof {
                        assert(self@.contains_key(k as u8));
                        assert(before + shares_bytes_from(self@, k as nat) =~= v@
                            + shares_bytes_from(self@, (k + 1) as nat));
                    }
                },
                None => {
                    proof {
                        assert(!self@.contains_key(k as u8));
                        assert(before + shares_bytes_from(self@, k as nat) =~= v@
                            + shares_bytes_from(self@, (k + 1) as nat));
                    }
                },
            }
            k = k + 1;
        }
        proof {
            assert(v@ + shares_bytes_from(self@, 256) =~= v@);
        }
        v
    }

    /// Reads threshold data from the front of `bytes`; returns it with the
    /// bytes after it.
    pub fn try_decode_from<'a>(bytes: &'a [u8]) -> (r: Result<(ThresholdData, &'a [u8]), Error>)
        ensures
            match r {
                Ok((t, rest)) => read_threshold_data(bytes@) == Ok::<
                    (Map<u8, ShareView>, Seq<u8>),
                    ErrorView,
                >((t@, rest@)),
                Err(e) => read_threshold_data(bytes@) == Err::<
                    (Map<u8, ShareView>, Seq<u8>),
                    ErrorView,
                >(e@),
            },
    {
        let (num_shares, ptr) = match decode_usize(bytes) {
            Ok(x) => x,
            Err(e) => return Err(Error::Multiutil(e)),
        };
        let ghost start = ptr@;
        let mut shares: BTreeMap<u8, SigShare> = BTreeMap::new();
        proof {
            assert(shares@.map_values(|s: SigShare| s@) =~= Map::<u8, ShareView>::empty());
        }
        let mut p = ptr;
        let mut i: usize = 0;
        while i < num_shares
            invariant
                i <= num_shares,
                read_threshold_data(bytes@) == read_shares(start, num_shares as nat, Map::empty()),
                read_shares(p@, (num_shares - i) as nat, shares@.map_values(|s: SigShare| s@))
                    == read_shares(start, num_shares as nat, Map::empty()),
            decreases num_shares - i,
        {
            let (share, next) = SigShare::try_decode_from(p)?;
            let ghost sv = share@;
            let key = share.0;
            let ghost before = shares@.map_values(|s: SigShare| s@);
            shares.insert(key, share);
            proof {
                assert(shares@.map_values(|s: SigShare| s@) =~= before.insert(sv.id, sv));
            }
            p = next;
            i = i + 1;
        }
        Ok((ThresholdData(shares), p))
    }

    /// The threshold data at the front of `bytes`.
    pub fn try_from_bytes(bytes: &[u8]) -> (r: Result<ThresholdData, Error>)
        ensures
            match r {
                Ok(t) => read_threshold_data(bytes@) matches Ok((m, _)) && m == t@,
                Err(e) => read_threshold_data(bytes@) == Err::<
                    (Map<u8, ShareView>, Seq<u8>),
                    ErrorView,
                >(e@),
            },
    {
        let (t, _) = ThresholdData::try_decode_from(bytes)?;
        Ok(t)
    }
}

impl Default for ThresholdData {
    fn default() -> (r: ThresholdData)
        ensures
            r@ == Map::<u8, ShareView>::empty(),
    {
        ThresholdData::new()
    }
}

/// How many identifiers of `m` are `k` or more.
pub open spec fn count_from(m: Map<u8, ShareView>, k: nat) -> nat
    decreases 256 - k,
{
    if k >= 256 {
        0
    } else {
        (if m.contains_key(k as u8) {
            1nat
        } else {
            0nat
        }) + count_from(m, k + 1)
    }
}

/// The shares of `m` whose identifiers are below `k`.
pub open spec fn shares_below(m: Map<u8, ShareView>, k: nat) -> Map<u8, ShareView> {
    m.restrict(Set::new(|x: u8| (x as nat) < k))
}

proof fn lemma_count_from(m: Map<u8, ShareView>, k: nat)
    requires
        m.dom().finite(),
    ensures
        m.dom().filter(|x: u8| (x as nat) >= k).len() == count_from(m, k),
        k <= 256 ==> count_from(m, k) <= 256 - k,
    decreases 256 - k,
{
    let here = m.dom().filter(|x: u8| (x as nat) >= k);
    let next = m.dom().filter(|x: u8| (x as nat) >= k + 1);
    vstd::set_lib::lemma_set_subset_finite(m.dom(), here);
    if k >= 256 {
        assert(here =~= Set::<u8>::empty());
    } else {
        lemma_count_from(m, k + 1);
        vstd::set_lib::lemma_set_subset_finite(m.dom(), next);
        if m.contains_key(k as u8) {
            assert(here =~= next.insert(k as u8));
        } else {
            assert(here =~= next);
        }
    }
}

proof fn lemma_read_shares_from(m: Map<u8, ShareView>, k: nat, rest: Seq<u8>)
    requires
        shares_well_keyed(m),
        k <= 256,
    ensures
        read_shares(shares_bytes_from(m, k) + rest, count_from(m, k), shares_below(m, k)) == Ok::<
            (Map<u8, ShareView>, Seq<u8>),
            ErrorView,
        >((m, rest)),
    decreases 256 - k,
{
    if k >= 256 {
        assert(shares_bytes_from(m, k) + rest =~= rest);
        assert(shares_below(m, k) =~= m);
    } else {
        lemma_read_shares_from(m, k + 1, rest);
        let tail = shares_bytes_from(m, k + 1) + rest;
        if m.contains_key(k as u8) {
            let v = m[k as u8];
            lemma_share_roundtrip(v, tail);
            assert(shares_bytes_from(m, k) + rest =~= share_bytes(v) + tail);
            assert(shares_below(m, k).insert(v.id, v) =~= shares_below(m, k + 1));
        } else {
            assert(shares_bytes_from(m, k) + rest =~= tail);
            assert(shares_below(m, k) =~= shares_below(m, k + 1));
        }
    }
}

/// Threshold data written and read back is the same threshold data, when
/// every share is kept under its own identifier.
pub proof fn lemma_threshold_data_roundtrip(m: Map<u8, ShareView>, rest: Seq<u8>)
    requires
        m.dom().finite(),
        shares_well_keyed(m),
    ensures
        read_threshold_data(threshold_data_bytes(m) + rest) == Ok::<
            (Map<u8, ShareView>, Seq<u8>),
            ErrorView,
        >((m, rest)),
{
    lemma_count_from(m, 0);
    assert(m.dom().filter(|x: u8| (x as nat) >= 0) =~= m.dom());
    let tail = shares_bytes_from(m, 0) + rest;
    assert(threshold_data_bytes(m) + rest =~= varint_bytes(m.len()) + tail);
    lemma_read_usize(m.len() as usize, tail);
    assert(shares_below(m, 0) =~= Map::<u8, ShareView>::empty());
    lemma_read_shares_from(m, 0, rest);
}

/// Threshold data that was read keeps every share under its own
/// identifier.
pub proof fn lemma_read_shares_well_keyed(s: Seq<u8>, count: nat, acc: Map<u8, ShareView>)
    requires
        shares_well_keyed(acc),
    ensures
        read_shares(s, count, acc) matches Ok((m, _)) ==> shares_well_keyed(m) && (
        acc.dom().finite() ==> m.dom().finite()),
    decreases count,
{
    if count > 0 {
        if let Ok((v, rest)) = read_share(s) {
            lemma_read_share_data_len(s);
            lemma_read_shares_well_keyed(rest, (count - 1) as nat, acc.insert(v.id, v));
        }
    }
}

/// Threshold data that was read keeps every share under its own identifier,
/// and has finitely many shares.
pub proof fn lemma_read_threshold_data_well_keyed(s: Seq<u8>)
    ensures
        read_threshold_data(s) matches Ok((m, _)) ==> shares_well_keyed(m) && m.dom().finite(),
{
    if let Ok((n, rest)) = read_usize(s) {
        lemma_read_shares_well_keyed(rest, n as nat, Map::empty());
    }
}

/// The bytes of a share that was read fit the length prefix.
proof fn lemma_read_share_data_len(s: Seq<u8>)
    ensures
        read_share(s) matches Ok((v, _)) ==> v.data.len() <= usize::MAX,
{
}

/// ASCII lowercase of a character: upper-case ASCII letters map to their
/// lower-case letter, every other character to itself.
pub open spec fn ascii_lower(c: char) -> char {
    if 'A' <= c && c <= 'Z' {
        ((c as u32) + 32) as char
    } else {
        c
    }
}

/// ASCII lowercase of a string.
pub open spec fn ascii_lowercase(s: Seq<char>) -> Seq<char> {
    s.map_values(|c: char| ascii_lower(c))
}

fn lower_char(c: char) -> (r: char)
    ensures
        r == ascii_lower(c),
{
    if 'A' <= c && c <= 'Z' {
        let u: u32 = c as u32;
        let l: u32 = u + 32;
        proof {
            assert(97 <= l <= 122);
        }
        l as u8 as char
    } else {
        c
    }
}

fn lowercase_chars(s: &str) -> (r: Vec<char>)
    ensures
        r@ == ascii_lowercase(s@),
{
    let mut out: Vec<char> = Vec::new();
    for c in it: s.chars()
        invariant
            it.seq() == s@,
            out@ == ascii_lowercase(it.seq().take(it.index() as int)),
    {
        let l = lower_char(c);
        let ghost prev = out@;
        out.push(l);
        proof {
            assert(ascii_lowercase(it.seq().take(it.index() + 1)) =~= prev + seq![l]);
        }
    }
    proof {
        assert(s@.take(s@.len() as int) =~= s@);
    }
    out
}

fn chars_equal(a: &Vec<char>, b: &[char]) -> (r: bool)
    ensures
        r == (a@ == b@),
{
    if a.len() != b.len() {
        return false;
    }
    let mut i: usize = 0;
    while i < a.len()
        invariant
            a@.len() == b@.len(),
            i <= a@.len(),
            forall|j: int| 0 <= j < i ==> a@[j] == b@[j],
        decreases a.len() - i,
    {
        if a[i] != b[i] {
            return false;
        }
        i = i + 1;
    }
    proof {
        assert(a@ =~= b@);
    }
    true
}

} // verus!
