//! The multisig value that the signature views read and build: a codec
//! naming the signature algorithm, the signed message, and attributes kept
//! by attribute identifier.
use std::collections::BTreeMap;
use vstd::prelude::*;

verus! {

/// Codec of a BLS12-381 G1 signature.
pub const BLS12381_G1_SIG: u64 = 0x1305;

/// Codec of a BLS12-381 G2 signature.
pub const BLS12381_G2_SIG: u64 = 0x1306;

/// Codec of a BLS12-381 G1 threshold signature share.
pub const BLS12381_G1_SIG_SHARE: u64 = 0x1308;

/// Codec of a BLS12-381 G2 threshold signature share.
pub const BLS12381_G2_SIG_SHARE: u64 = 0x1309;

/// A BLS12-381 signature (not a share).
pub open spec fn is_bls_sig_codec(c: u64) -> bool {
    c == BLS12381_G1_SIG || c == BLS12381_G2_SIG
}

/// A BLS12-381 threshold signature share.
pub open spec fn is_bls_share_codec(c: u64) -> bool {
    c == BLS12381_G1_SIG_SHARE || c == BLS12381_G2_SIG_SHARE
}

/// Any of the BLS12-381 codecs.
pub open spec fn is_bls_codec(c: u64) -> bool {
    is_bls_sig_codec(c) || is_bls_share_codec(c)
}

/// What `format!("{:#x}", c)` writes for `c`.
pub uninterp spec fn hex_text(c: u64) -> Seq<char>;

/// The textual name of a codec: the table name of the BLS12-381 codecs,
/// the code in hexadecimal for any other.
pub open spec fn codec_name(c: u64) -> Seq<char> {
    if c == BLS12381_G1_SIG {
        "bls12_381-g1-sig"@
    } else if c == BLS12381_G2_SIG {
        "bls12_381-g2-sig"@
    } else if c == BLS12381_G1_SIG_SHARE {
        "bls12_381-g1-sig-share"@
    } else if c == BLS12381_G2_SIG_SHARE {
        "bls12_381-g2-sig-share"@
    } else {
        hex_text(c)
    }
}

/// Writes `c` in hexadecimal with `std::format!("{:#x}")`; the contract
/// claims only that the text is the same for the same code.
#[verifier::external_body]
fn hex_string(c: u64) -> (r: String)
    ensures
        r@ == hex_text(c),
{
    format!("{:#x}", c)
}

/// The textual name of a codec.
pub fn codec_to_string(c: u64) -> (r: String)
    ensures
        r@ == codec_name(c),
{
    if c == BLS12381_G1_SIG {
        String::from_str("bls12_381-g1-sig")
    } else if c == BLS12381_G2_SIG {
        String::from_str("bls12_381-g2-sig")
    } else if c == BLS12381_G1_SIG_SHARE {
        String::from_str("bls12_381-g1-sig-share")
    } else if c == BLS12381_G2_SIG_SHARE {
        String::from_str("bls12_381-g2-sig-share")
    } else {
        hex_string(c)
    }
}

/// The attributes a multisig may carry.
#[derive(Clone, Copy, Debug, PartialEq, Eq, Structural, Hash, PartialOrd, Ord)]
pub enum AttrId {
    /// The signature bytes
    SigData,
    /// The codec of the signed payload
    PayloadEncoding,
    /// The signature scheme
    Scheme,
    /// The threshold of a threshold signature
    Threshold,
    /// The limit of a threshold signature
    Limit,
    /// The identifier of a signature share
    ShareIdentifier,
    /// The shares collected for a threshold signature, or the share type of
    /// a share
    ThresholdData,
}

impl AttrId {
    /// The code under which the attribute is kept.
    pub open spec fn spec_code(self) -> u8 {
        match self {
            AttrId::SigData => 0,
            AttrId::PayloadEncoding => 1,
            AttrId::Scheme => 2,
            AttrId::Threshold => 3,
            AttrId::Limit => 4,
            AttrId::ShareIdentifier => 5,
            AttrId::ThresholdData => 6,
        }
    }

    /// The code under which the attribute is kept.
    pub fn code(&self) -> (r: u8)
        ensures
            r == self.spec_code(),
    {
        match self {
            AttrId::SigData => 0,
            AttrId::PayloadEncoding => 1,
            AttrId::Scheme => 2,
            AttrId::Threshold => 3,
            AttrId::Limit => 4,
            AttrId::ShareIdentifier => 5,
            AttrId::ThresholdData => 6,
        }
    }
}

/// A signature with its codec, its message and its attributes, the
/// attributes kept by the code of their attribute identifier.
#[derive(Debug)]
pub struct Multisig {
    /// The signature algorithm
    pub codec: u64,
    /// The signed message
    pub message: Vec<u8>,
    /// The attributes, by attribute code
    pub attributes: BTreeMap<u8, Vec<u8>>,
}

/// What a `Multisig` holds.
pub struct MultisigView {
    pub codec: u64,
    pub message: Seq<u8>,
    pub attributes: Map<u8, Seq<u8>>,
}

impl View for Multisig {
    type V = MultisigView;

    open spec fn view(&self) -> MultisigView {
        MultisigView {
            codec: self.codec,
            message: self.message@,
            attributes: self.attributes@.map_values(|v: Vec<u8>| v@),
        }
    }
}

/// The value of an attribute of `ms`, if it has one.
pub open spec fn attr(ms: MultisigView, id: AttrId) -> Option<Seq<u8>> {
    if ms.attributes.contains_key(id.spec_code()) {
        Some(ms.attributes[id.spec_code()])
    } else {
        None
    }
}

impl Multisig {
    /// The value of an attribute, if the multisig has one.
    pub fn get_attr(&self, id: AttrId) -> (r: Option<&Vec<u8>>)
        ensures
            match r {
                Some(v) => attr(self@, id) == Some(v@),
                None => attr(self@, id) == None::<Seq<u8>>,
            },
    {
        let code = id.code();
        let r = self.attributes.get(&code);
        proof {
            match r {
                Some(v) => {
                    assert(self.attributes@.contains_key(code));
                },
                None => {
                    assert(!self.attributes@.contains_key(code));
                },
            }
        }
        r
    }
}

/// A copy of a byte string.
pub fn copy_bytes(v: &Vec<u8>) -> (r: Vec<u8>)
    ensures
        r@ == v@,
{
    vstd::slice::slice_to_vec(v.as_slice())
}

} // verus!
