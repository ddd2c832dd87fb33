# multisig_bls

BLS12-381 threshold signatures for multisig values, written in Verus.

A threshold signature multisig collects signature shares in its threshold
data attribute. This crate gives the wire encodings of share types, of single
shares and of threshold data, and the BLS12-381 view of a multisig: reading
its attributes, splitting it into share multisigs, adding a share to it, and
combining its shares into a signature with `blsful`.

Layout:

- `src/varint.rs`: unsigned LEB128 varints, minimal encodings only, with
  their encoding, decoding and round-trip lemmas.
- `src/error.rs`: the errors and their views.
- `src/multisig.rs`: the multisig value, its codecs and attribute ids.
- `src/sig_views/shares.rs`: `ShareTypeId`, `SigShare`, `ThresholdData` and
  their encodings, with the round-trip and canonical-form laws.
- `src/sig_views/bls12381.rs`: `BlsView` and its operations; the calls into
  `blsful` stand behind two trusted wrappers.
- `src/sig_views/laws.rs`: laws across the operations (adding a share
  records it; an added share comes back out of `shares`; a split share adds
  back as the same share).
- `app/lib.rs`: the errors with their messages (`thiserror`) and the
  textual form of share types.
- `tests/`: tests on concrete values, including a round trip through real
  BLS signature shares.
