//! Unsigned LEB128 variable-length integers as used by the multiformats
//! `unsigned-varint` encoding: seven bits per byte, least significant group
//! first, the high bit set on every byte but the last, and only the minimal
//! encoding of each value accepted.
use vstd::prelude::*;

verus! {

/// Why a varint could not be read from the front of a byte string.
#[derive(Clone, Copy, Debug, PartialEq, Eq, Structural)]
pub enum VarintError {
    /// The bytes ended before the last byte of the varint.
    Insufficient,
    /// The varint is longer than its type allows, or its value is too large.
    Overflow,
    /// The varint ends in a zero byte that a shorter encoding would drop.
    NotMinimal,
}

/// `128` to the power `n`.
pub open spec fn pow128(n: nat) -> nat
    decreases n,
{
    if n == 0 {
        1
    } else {
        128 * pow128((n - 1) as nat)
    }
}

/// The minimal varint encoding of `v`.
pub open spec fn varint_bytes(v: nat) -> Seq<u8>
    decreases v,
{
    if v < 128 {
        seq![v as u8]
    } else {
        seq![(v % 128 + 128) as u8] + varint_bytes(v / 128)
    }
}

/// The number that the seven-bit groups of `s` stand for, first byte lowest.
pub open spec fn varint_value(s: Seq<u8>) -> nat
    decreases s.len(),
{
    if s.len() == 0 {
        0
    } else {
        varint_value(s.drop_last()) + (s.last() % 128) as nat * pow128((s.len() - 1) as nat)
    }
}

/// How many bytes the varint at the front of `s` takes, when it takes at
/// most `max_bytes` bytes; `first` says whether `s` starts the varint.
pub open spec fn varint_len(s: Seq<u8>, max_bytes: nat, first: bool) -> Result<nat, VarintError>
    decreases s.len(),
{
    if s.len() == 0 {
        Err(VarintError::Insufficient)
    } else if s[0] < 128 {
        if s[0] == 0 && !first {
            Err(VarintError::NotMinimal)
        } else {
            Ok(1)
        }
    } else if max_bytes <= 1 {
        Err(VarintError::Overflow)
    } else {
        match varint_len(s.drop_first(), (max_bytes - 1) as nat, false) {
            Ok(n) => Ok(n + 1),
            Err(e) => Err(e),
        }
    }
}

/// Reading a varint of at most `max_bytes` bytes and at most `bound` from
/// the front of `s`: its value and the number of bytes it takes.
pub open spec fn parse_varint(s: Seq<u8>, max_bytes: nat, bound: nat) -> Result<
    (nat, nat),
    VarintError,
> {
    match varint_len(s, max_bytes, true) {
        Err(e) => Err(e),
        Ok(n) => {
            let v = varint_value(s.take(n as int));
            if v > bound {
                Err(VarintError::Overflow)
            } else {
                Ok((v, n))
            }
        },
    }
}

/// The most bytes a varint of a `u8` may take.
pub const U8_MAX_BYTES: usize = 2;

/// The most bytes a varint of a `u64` or a `usize` may take.
pub const U64_MAX_BYTES: usize = 10;

/// Reading a `u8` varint.
pub open spec fn parse_u8(s: Seq<u8>) -> Result<(nat, nat), VarintError> {
    parse_varint(s, U8_MAX_BYTES as nat, u8::MAX as nat)
}

/// Reading a `usize` varint.
pub open spec fn parse_usize(s: Seq<u8>) -> Result<(nat, nat), VarintError> {
    parse_varint(s, U64_MAX_BYTES as nat, usize::MAX as nat)
}

/// Reading a `u64` varint.
pub open spec fn parse_u64(s: Seq<u8>) -> Result<(nat, nat), VarintError> {
    parse_varint(s, U64_MAX_BYTES as nat, u64::MAX as nat)
}

/// Reading a `u8` varint: its value and the bytes after it.
#[verifier::opaque]
pub open spec fn read_u8(s: Seq<u8>) -> Result<(u8, Seq<u8>), VarintError> {
    match parse_varint(s, U8_MAX_BYTES as nat, u8::MAX as nat) {
        Ok((v, n)) => Ok((v as u8, s.skip(n as int))),
        Err(e) => Err(e),
    }
}

/// Reading a `usize` varint: its value and the bytes after it.
#[verifier::opaque]
pub open spec fn read_usize(s: Seq<u8>) -> Result<(usize, Seq<u8>), VarintError> {
    match parse_varint(s, U64_MAX_BYTES as nat, usize::MAX as nat) {
        Ok((v, n)) => Ok((v as usize, s.skip(n as int))),
        Err(e) => Err(e),
    }
}

/// Reading a `u64` varint: its value and the bytes after it.
#[verifier::opaque]
pub open spec fn read_u64(s: Seq<u8>) -> Result<(u64, Seq<u8>), VarintError> {
    match parse_varint(s, U64_MAX_BYTES as nat, u64::MAX as nat) {
        Ok((v, n)) => Ok((v as u64, s.skip(n as int))),
        Err(e) => Err(e),
    }
}

proof fn lemma_pow128_positive(n: nat)
    ensures
        pow128(n) >= 1,
    decreases n,
{
    if n > 0 {
        lemma_pow128_positive((n - 1) as nat);
    }
}

proof fn lemma_pow128_monotonic(a: nat, b: nat)
    requires
        a <= b,
    ensures
        pow128(a) <= pow128(b),
        pow128(a) >= 1,
    decreases b,
{
    lemma_pow128_positive(a);
    if a < b {
        lemma_pow128_monotonic(a, (b - 1) as nat);
    }
}

proof fn lemma_pow128_nine()
    ensures
        pow128(9) == 0x8000_0000_0000_0000,
        pow128(10) == 0x40_0000_0000_0000_0000,
{
    reveal_with_fuel(pow128, 11);
}

/// The value of a concatenation.
proof fn lemma_value_append(x: Seq<u8>, y: Seq<u8>)
    ensures
        varint_value(x + y) == varint_value(x) + pow128(x.len()) * varint_value(y),
    decreases y.len(),
{
    if y.len() == 0 {
        assert(x + y =~= x);
        assert(varint_value(y) == 0);
        let a = pow128(x.len());
        assert(a * 0 == 0) by (nonlinear_arith);
    } else {
        lemma_value_append(x, y.drop_last());
        assert((x + y).drop_last() =~= x + y.drop_last());
        assert((x + y).last() == y.last());
        let k = (y.len() - 1) as nat;
        assert(pow128(x.len() + k) == pow128(x.len()) * pow128(k)) by {
            lemma_pow128_add(x.len(), k);
        }
        let a = pow128(x.len());
        let b = pow128(k);
        let d = (y.last() % 128) as nat;
        let w = varint_value(y.drop_last());
        assert(varint_value(y) == w + d * b);
        assert((x + y).len() - 1 == x.len() + k);
        assert(varint_value(x + y) == varint_value(x + y.drop_last()) + d * pow128(x.len() + k));
        assert(a * (w + d * b) == a * w + d * (a * b)) by (nonlinear_arith);
        assert(varint_value(x + y.drop_last()) == varint_value(x) + a * w);
        assert(pow128(x.len() + k) == a * b);
        assert(varint_value(x + y) == varint_value(x) + a * w + d * (a * b));
        assert(varint_value(x + y) == varint_value(x) + a * varint_value(y));
    }
}

proof fn lemma_pow128_add(a: nat, b: nat)
    ensures
        pow128(a + b) == pow128(a) * pow128(b),
    decreases b,
{
    if b > 0 {
        lemma_pow128_add(a, (b - 1) as nat);
        assert((a + b - 1) as nat == a + (b - 1) as nat);
        assert(pow128(a + b) == 128 * pow128((a + b - 1) as nat));
        let p = pow128(a);
        let q = pow128((b - 1) as nat);
        assert(pow128(b) == 128 * q);
        assert(128 * (p * q) == p * (128 * q)) by (nonlinear_arith);
    } else {
        assert(a + b == a);
        assert(pow128(0) == 1);
        assert(pow128(a) * 1 == pow128(a));
    }
}

/// The value of a single byte.
proof fn lemma_value_single(d: u8)
    ensures
        varint_value(seq![d]) == (d % 128) as nat,
{
    let s = seq![d];
    assert(pow128(0) == 1);
    let m = (d % 128) as nat;
    assert(m * 1 == m);
    assert(s.len() == 1);
    assert(s.drop_last() =~= Seq::<u8>::empty());
    assert(s.last() == d);
    assert(varint_value(s) == varint_value(s.drop_last()) + (s.last() % 128) as nat * pow128(0));
    assert(varint_value(Seq::<u8>::empty()) == 0);
    assert(pow128(0) == 1);
}

/// Encoding then reading the groups gives the value back.
pub proof fn lemma_value_of_bytes(v: nat)
    ensures
        varint_value(varint_bytes(v)) == v,
        varint_bytes(v).len() >= 1,
    decreases v,
{
    if v < 128 {
        lemma_value_single(v as u8);
        assert((v as u8) % 128 == v);
    } else {
        lemma_value_of_bytes(v / 128);
        let d = (v % 128 + 128) as u8;
        lemma_value_append(seq![d], varint_bytes(v / 128));
        lemma_value_single(d);
        assert(pow128(1) == 128) by {
            reveal_with_fuel(pow128, 2);
        }
        assert(seq![d].len() == 1);
        assert(d % 128 == v % 128);
        assert(varint_bytes(v) == seq![d] + varint_bytes(v / 128));
        assert(v == v % 128 + 128 * (v / 128));
    }
}

/// A value below `128^k` takes at most `k` bytes.
pub proof fn lemma_bytes_len(v: nat, k: nat)
    requires
        v < pow128(k),
        k >= 1,
    ensures
        varint_bytes(v).len() <= k,
    decreases v,
{
    if v >= 128 {
        if k == 1 {
            assert(pow128(1) == 128) by {
                reveal_with_fuel(pow128, 2);
            }
        }
        assert(v / 128 < pow128((k - 1) as nat));
        lemma_bytes_len(v / 128, (k - 1) as nat);
    }
}

/// The last byte of an encoding is zero only for the encoding of zero.
proof fn lemma_len_of_bytes(v: nat, rest: Seq<u8>, max_bytes: nat, first: bool)
    requires
        varint_bytes(v).len() <= max_bytes,
        first || v > 0,
    ensures
        varint_len(varint_bytes(v) + rest, max_bytes, first) == Ok::<nat, VarintError>(
            varint_bytes(v).len(),
        ),
    decreases v,
{
    let s = varint_bytes(v) + rest;
    if v < 128 {
        assert(s[0] == v as u8);
    } else {
        lemma_value_of_bytes(v / 128);
        lemma_len_of_bytes(v / 128, rest, (max_bytes - 1) as nat, false);
        assert(s.drop_first() =~= varint_bytes(v / 128) + rest);
    }
}

/// A `u8` written as a varint reads back, with the bytes after it.
pub proof fn lemma_read_u8(v: u8, rest: Seq<u8>)
    ensures
        read_u8(varint_bytes(v as nat) + rest) == Ok::<(u8, Seq<u8>), VarintError>((v, rest)),
{
    reveal(read_u8);
    lemma_u8_len(v);
    lemma_parse_bytes(v as nat, rest, U8_MAX_BYTES as nat, u8::MAX as nat);
    assert((varint_bytes(v as nat) + rest).skip(varint_bytes(v as nat).len() as int) =~= rest);
}

/// A `usize` written as a varint reads back, with the bytes after it.
pub proof fn lemma_read_usize(v: usize, rest: Seq<u8>)
    ensures
        read_usize(varint_bytes(v as nat) + rest) == Ok::<(usize, Seq<u8>), VarintError>(
            (v, rest),
        ),
{
    reveal(read_usize);
    lemma_u64_len(v as u64);
    lemma_parse_bytes(v as nat, rest, U64_MAX_BYTES as nat, usize::MAX as nat);
    assert((varint_bytes(v as nat) + rest).skip(varint_bytes(v as nat).len() as int) =~= rest);
}

/// A `u64` written as a varint reads back, with the bytes after it.
pub proof fn lemma_read_u64(v: u64, rest: Seq<u8>)
    ensures
        read_u64(varint_bytes(v as nat) + rest) == Ok::<(u64, Seq<u8>), VarintError>((v, rest)),
{
    reveal(read_u64);
    lemma_u64_len(v);
    lemma_parse_bytes(v as nat, rest, U64_MAX_BYTES as nat, u64::MAX as nat);
    assert((varint_bytes(v as nat) + rest).skip(varint_bytes(v as nat).len() as int) =~= rest);
}

/// Reading back what was written gives the value and its length.
pub proof fn lemma_parse_bytes(v: nat, rest: Seq<u8>, max_bytes: nat, bound: nat)
    requires
        varint_bytes(v).len() <= max_bytes,
        v <= bound,
    ensures
        parse_varint(varint_bytes(v) + rest, max_bytes, bound) == Ok::<(nat, nat), VarintError>(
            (v, varint_bytes(v).len()),
        ),
{
    lemma_len_of_bytes(v, rest, max_bytes, true);
    lemma_value_of_bytes(v);
    assert((varint_bytes(v) + rest).take(varint_bytes(v).len() as int) =~= varint_bytes(v));
}

/// The bytes of a varint that was read are the encoding of its value, and
/// a varint that does not start the number is not zero.
proof fn lemma_len_canonical(s: Seq<u8>, max_bytes: nat, first: bool)
    ensures
        varint_len(s, max_bytes, first) matches Ok(n) ==> {
            &&& varint_bytes(varint_value(s.take(n as int))) == s.take(n as int)
            &&& n <= s.len()
            &&& (!first ==> varint_value(s.take(n as int)) > 0)
        },
    decreases s.len(),
{
    if let Ok(n) = varint_len(s, max_bytes, first) {
        let t = s.take(n as int);
        if s[0] < 128 {
            assert(t =~= seq![s[0]]);
            lemma_value_single(s[0]);
        } else {
            let tail = s.drop_first();
            lemma_len_canonical(tail, (max_bytes - 1) as nat, false);
            let n1 = (n - 1) as nat;
            let t1 = tail.take(n1 as int);
            assert(t =~= seq![s[0]] + t1);
            lemma_value_append(seq![s[0]], t1);
            lemma_value_single(s[0]);
            assert(pow128(1) == 128) by {
                reveal_with_fuel(pow128, 2);
            }
            let w = varint_value(t1);
            let v = varint_value(t);
            let d = (s[0] % 128) as nat;
            assert(v == d + 128 * w);
            assert(v % 128 == d && v / 128 == w) by (nonlinear_arith)
                requires
                    v == d + 128 * w,
                    d < 128,
            ;
            assert((v % 128 + 128) as u8 == s[0]);
            assert(varint_bytes(v) == seq![(v % 128 + 128) as u8] + varint_bytes(v / 128));
        }
    }
}

/// A varint that was read is the minimal encoding of its value: reading
/// accepts exactly one byte string for each value.
pub proof fn lemma_parse_canonical(s: Seq<u8>, max_bytes: nat, bound: nat)
    ensures
        parse_varint(s, max_bytes, bound) matches Ok((v, n)) ==> n <= s.len() && s.take(n as int)
            == varint_bytes(v),
{
    lemma_len_canonical(s, max_bytes, true);
}

/// A `u8` that was read stands in front of the bytes after it in its own
/// encoding.
pub proof fn lemma_read_u8_canonical(s: Seq<u8>)
    ensures
        read_u8(s) matches Ok((v, rest)) ==> s == varint_bytes(v as nat) + rest,
{
    reveal(read_u8);
    lemma_parse_canonical(s, U8_MAX_BYTES as nat, u8::MAX as nat);
    if let Ok((v, n)) = parse_varint(s, U8_MAX_BYTES as nat, u8::MAX as nat) {
        assert(s =~= s.take(n as int) + s.skip(n as int));
    }
}

/// A `usize` that was read stands in front of the bytes after it in its own
/// encoding.
pub proof fn lemma_read_usize_canonical(s: Seq<u8>)
    ensures
        read_usize(s) matches Ok((v, rest)) ==> s == varint_bytes(v as nat) + rest,
{
    reveal(read_usize);
    lemma_parse_canonical(s, U64_MAX_BYTES as nat, usize::MAX as nat);
    if let Ok((v, n)) = parse_varint(s, U64_MAX_BYTES as nat, usize::MAX as nat) {
        assert(s =~= s.take(n as int) + s.skip(n as int));
    }
}

/// A `u64` takes at most ten bytes.
pub proof fn lemma_u64_len(v: u64)
    ensures
        varint_bytes(v as nat).len() <= U64_MAX_BYTES,
{
    lemma_pow128_nine();
    lemma_bytes_len(v as nat, 10);
}

/// A `u8` takes at most two bytes.
pub proof fn lemma_u8_len(v: u8)
    ensures
        varint_bytes(v as nat).len() <= U8_MAX_BYTES,
{
    reveal_with_fuel(pow128, 3);
    lemma_bytes_len(v as nat, 2);
}

/// Writes `v` as a varint.
pub fn encode_varint(v: u64) -> (r: Vec<u8>)
    ensures
        r@ == varint_bytes(v as nat),
{
    let mut out: Vec<u8> = Vec::new();
    let mut x: u64 = v;
    while x >= 128
        invariant
            out@ + varint_bytes(x as nat) == varint_bytes(v as nat),
        decreases x,
    {
        let ghost old_out = out@;
        out.push((x % 128 + 128) as u8);
        assert(varint_bytes(x as nat) == seq![(x % 128 + 128) as u8] + varint_bytes(
            (x / 128) as nat,
        ));
        assert(old_out + varint_bytes(x as nat) =~= out@ + varint_bytes((x / 128) as nat));
        x = x / 128;
    }
    out.push(x as u8);
    out
}

/// Reads a varint of at most `max_bytes` bytes and at most `bound` from the
/// front of `bytes`: its value and the number of bytes it takes.
pub fn decode_varint(bytes: &[u8], max_bytes: usize, bound: u64) -> (r: Result<
    (u64, usize),
    VarintError,
>)
    requires
        1 <= max_bytes <= U64_MAX_BYTES,
    ensures
        match r {
            Ok((v, n)) => {
                &&& parse_varint(bytes@, max_bytes as nat, bound as nat) == Ok::<
                    (nat, nat),
                    VarintError,
                >((v as nat, n as nat))
                &&& n <= bytes@.len()
                &&& v <= bound
            },
            Err(e) => parse_varint(bytes@, max_bytes as nat, bound as nat) == Err::<
                (nat, nat),
                VarintError,
            >(e),
        },
{
    let mut i: usize = 0;
    let mut acc: u128 = 0;
    let mut mult: u128 = 1;
    proof {
        assert(bytes@.skip(0) =~= bytes@);
        assert(bytes@.take(0) =~= Seq::<u8>::empty());
        lemma_pow128_nine();
    }
    loop
        invariant
            1 <= max_bytes <= U64_MAX_BYTES,
            i < max_bytes,
            i <= bytes@.len(),
            mult == pow128(i as nat),
            acc == varint_value(bytes@.take(i as int)),
            acc < mult,
            mult <= pow128(9),
            pow128(9) == 0x8000_0000_0000_0000,
            varint_len(bytes@, max_bytes as nat, true) == match varint_len(
                bytes@.skip(i as int),
                (max_bytes - i) as nat,
                i == 0,
            ) {
                Ok(n) => Ok::<nat, VarintError>(n + i as nat),
                Err(e) => Err(e),
            },
        decreases max_bytes - i,
    {
        if i >= bytes.len() {
            return Err(VarintError::Insufficient);
        }
        let b = bytes[i];
        let ghost t = bytes@.skip(i as int);
        assert(t[0] == b);
        assert(bytes@.take(i + 1).drop_last() =~= bytes@.take(i as int));
        assert(bytes@.take(i + 1).last() == b);
        if b < 128 {
            if b == 0 && i > 0 {
                return Err(VarintError::NotMinimal);
            }
            proof {
                assert((b as nat) * mult <= 127 * mult) by (nonlinear_arith)
                    requires
                        b < 128,
                ;
            }
            let total: u128 = acc + (b as u128) * mult;
            if total > bound as u128 {
                return Err(VarintError::Overflow);
            }
            return Ok((total as u64, i + 1));
        }
        if i + 1 >= max_bytes {
            return Err(VarintError::Overflow);
        }
        proof {
            assert(t.drop_first() =~= bytes@.skip(i + 1));
            assert(((b - 128) as nat) * mult <= 127 * mult) by (nonlinear_arith)
                requires
                    b < 256,
                    b >= 128,
            ;
            lemma_pow128_monotonic((i + 1) as nat, 9);
        }
        acc = acc + ((b - 128) as u128) * mult;
        mult = mult * 128;
        i = i + 1;
    }
}

/// Reads a `u8` varint from the front of `bytes`: its value and the bytes
/// after it.
pub fn decode_u8(bytes: &[u8]) -> (r: Result<(u8, &[u8]), VarintError>)
    ensures
        match r {
            Ok((v, rest)) => read_u8(bytes@) == Ok::<(u8, Seq<u8>), VarintError>((v, rest@)),
            Err(e) => read_u8(bytes@) == Err::<(u8, Seq<u8>), VarintError>(e),
        },
{
    proof {
        reveal(read_u8);
    }
    let (v, n) = decode_varint(bytes, U8_MAX_BYTES, u8::MAX as u64)?;
    let rest = vstd::slice::slice_subrange(bytes, n, bytes.len());
    proof {
        assert(rest@ =~= bytes@.skip(n as int));
    }
    Ok((v as u8, rest))
}

/// Reads a `usize` varint from the front of `bytes`: its value and the
/// bytes after it.
pub fn decode_usize(bytes: &[u8]) -> (r: Result<(usize, &[u8]), VarintError>)
    ensures
        match r {
            Ok((v, rest)) => read_usize(bytes@) == Ok::<(usize, Seq<u8>), VarintError>(
                (v, rest@),
            ),
            Err(e) => read_usize(bytes@) == Err::<(usize, Seq<u8>), VarintError>(e),
        },
{
    proof {
        reveal(read_usize);
    }
    let (v, n) = decode_varint(bytes, U64_MAX_BYTES, usize::MAX as u64)?;
    let rest = vstd::slice::slice_subrange(bytes, n, bytes.len());
    proof {
        assert(rest@ =~= bytes@.skip(n as int));
    }
    Ok((v as usize, rest))
}

/// Reads a `u64` varint from the front of `bytes`: its value and the bytes
/// after it.
pub fn decode_u64(bytes: &[u8]) -> (r: Result<(u64, &[u8]), VarintError>)
    ensures
        match r {
            Ok((v, rest)) => read_u64(bytes@) == Ok::<(u64, Seq<u8>), VarintError>((v, rest@)),
            Err(e) => read_u64(bytes@) == Err::<(u64, Seq<u8>), VarintError>(e),
        },
{
    proof {
        reveal(read_u64);
    }
    let (v, n) = decode_varint(bytes, U64_MAX_BYTES, u64::MAX)?;
    let rest = vstd::slice::slice_subrange(bytes, n, bytes.len());
    proof {
        assert(rest@ =~= bytes@.skip(n as int));
    }
    Ok((v, rest))
}

} // verus!
