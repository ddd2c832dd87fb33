//! Errors created by this library.
use crate::varint::VarintError;
use vstd::prelude::*;

verus! {

/// Declares `std::fmt::Error`, which an error of this library may carry.
#[verifier::external_type_specification]
#[verifier::external_body]
pub struct ExFmtError(std::fmt::Error);

/// A multibase conversion failure, with the variants of `multibase::Error`.
#[derive(Clone, Copy, Debug, PartialEq, Eq, Structural)]
pub enum MultibaseError {
    /// Unknown base code
    UnknownBase(char),
    /// Invalid string
    InvalidBaseString,
}

/// Errors about the attributes of a multisig.
#[derive(Clone, Copy, Debug, PartialEq, Eq, Structural)]
pub enum AttributesError {
    /// The payload encoding attribute is missing
    MissingPayloadEncoding,
    /// The signature data attribute is missing
    MissingSignature,
    /// The threshold attribute is missing
    MissingThreshold,
    /// The limit attribute is missing
    MissingLimit,
    /// The share identifier attribute is missing
    MissingIdentifier,
    /// The threshold data attribute is missing
    MissingThresholdData,
}

/// Errors about threshold signature shares.
#[derive(Clone, Debug)]
pub enum SharesError {
    /// A share type code that names no share type
    InvalidShareTypeId(u8),
    /// A share type name that names no share type
    InvalidShareTypeName(String),
    /// The multisig is not a signature share
    NotASignatureShare,
    /// The multisig is a signature share
    IsASignatureShare,
    /// Fewer shares than the threshold
    NotEnoughShares,
    /// The shares are not all of one share type
    ShareTypeMismatch,
    /// Combining the shares into a signature failed
    ShareCombineFailed(String),
}

/// Errors created by this library
#[derive(Debug)]
#[non_exhaustive]
pub enum Error {
    /// Formatting error
    Fmt(std::fmt::Error),
    /// A multibase conversion error
    Multibase(MultibaseError),
    /// A codec could not be read
    Multicodec(VarintError),
    /// A varint or a length-prefixed byte string could not be read
    Multiutil(VarintError),
    /// A single-byte varint could not be read
    Multitrait(VarintError),
    /// Missing sigil 0x39
    MissingSigil,
    /// Missing signature data
    MissingSignature,
    /// Unsupported signature algorithm
    UnsupportedAlgorithm(String),
    /// Failed Varsig conversion
    FailedConversion(String),
    /// An attributes error
    Attributes(AttributesError),
    /// A shares error
    Shares(SharesError),
}

/// What a `SharesError` says, with its texts as character sequences.
pub enum SharesErrorView {
    InvalidShareTypeId(u8),
    InvalidShareTypeName(Seq<char>),
    NotASignatureShare,
    IsASignatureShare,
    NotEnoughShares,
    ShareTypeMismatch,
    ShareCombineFailed(Seq<char>),
}

/// What an `Error` says, with its texts as character sequences.
pub enum ErrorView {
    Fmt,
    Multibase(MultibaseError),
    Multicodec(VarintError),
    Multiutil(VarintError),
    Multitrait(VarintError),
    MissingSigil,
    MissingSignature,
    UnsupportedAlgorithm(Seq<char>),
    FailedConversion(Seq<char>),
    Attributes(AttributesError),
    Shares(SharesErrorView),
}

impl View for SharesError {
    type V = SharesErrorView;

    open spec fn view(&self) -> SharesErrorView {
        match self {
            SharesError::InvalidShareTypeId(c) => SharesErrorView::InvalidShareTypeId(*c),
            SharesError::InvalidShareTypeName(s) => SharesErrorView::InvalidShareTypeName(s@),
            SharesError::NotASignatureShare => SharesErrorView::NotASignatureShare,
            SharesError::IsASignatureShare => SharesErrorView::IsASignatureShare,
            SharesError::NotEnoughShares => SharesErrorView::NotEnoughShares,
            SharesError::ShareTypeMismatch => SharesErrorView::ShareTypeMismatch,
            SharesError::ShareCombineFailed(s) => SharesErrorView::ShareCombineFailed(s@),
        }
    }
}

impl View for Error {
    type V = ErrorView;

    open spec fn view(&self) -> ErrorView {
        match self {
            Error::Fmt(_) => ErrorView::Fmt,
            Error::Multibase(e) => ErrorView::Multibase(*e),
            Error::Multicodec(e) => ErrorView::Multicodec(*e),
            Error::Multiutil(e) => ErrorView::Multiutil(*e),
            Error::Multitrait(e) => ErrorView::Multitrait(*e),
            Error::MissingSigil => ErrorView::MissingSigil,
            Error::MissingSignature => ErrorView::MissingSignature,
            Error::UnsupportedAlgorithm(s) => ErrorView::UnsupportedAlgorithm(s@),
            Error::FailedConversion(s) => ErrorView::FailedConversion(s@),
            Error::Attributes(e) => ErrorView::Attributes(*e),
            Error::Shares(e) => ErrorView::Shares(e@),
        }
    }
}

/// The view of a result whose error is an `Error`.
pub open spec fn result_view<T>(r: Result<T, Error>) -> Result<T, ErrorView> {
    match r {
        Ok(v) => Ok(v),
        Err(e) => Err(e@),
    }
}

} // verus!
