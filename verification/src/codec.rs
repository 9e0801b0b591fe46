//! The binary codec: byte buffers to raw element values and back.
//!
//! A buffer is split into fixed-width chunks; each chunk is read as an
//! unsigned value under the configured byte order and returned zero-extended
//! in a `u64`.  Trailing bytes shorter than one element are dropped.  The
//! unverified shell turns raw values into floating-point samples (an exact
//! integer cast for the integer kinds, a bit reinterpretation for the float
//! kinds); everything up to that cast is proved here, including the
//! round-trip law `encode_raw(decode_raw(b)) == b` up to truncation.

use vstd::prelude::*;
use vstd::arithmetic::div_mod::{
    lemma_fundamental_div_mod_converse_div, lemma_fundamental_div_mod_converse_mod,
};
use crate::data::DataType;
use crate::data::Endianness;

verus! {

/// 256 to the power `n`: the number of values a chunk of `n` bytes can take.
pub open spec fn pow256(n: nat) -> nat
    decreases n,
{
    if n == 0 {
        1
    } else {
        256 * pow256((n - 1) as nat)
    }
}

/// Element width in bytes used by the decoder.  The variable-width kinds
/// (`Text`, `Blob`) decode per byte so that any buffer stays plottable.
pub open spec fn elem_width(t: DataType) -> nat {
    match t {
        DataType::Int8 | DataType::UInt8 | DataType::Text | DataType::Blob => 1,
        DataType::Int16 | DataType::UInt16 => 2,
        DataType::Int32 | DataType::UInt32 | DataType::Float32 => 4,
        DataType::Float64 => 8,
    }
}

/// Whether the raw element pattern is an IEEE float encoding rather than an
/// integer value.
pub open spec fn is_float_type(t: DataType) -> bool {
    t == DataType::Float32 || t == DataType::Float64
}

/// Value of a chunk read least-significant byte first.
pub open spec fn le_value(c: Seq<u8>) -> nat
    decreases c.len(),
{
    if c.len() == 0 {
        0
    } else {
        (c[0] + 256 * le_value(c.subrange(1, c.len() as int))) as nat
    }
}

/// Value of a chunk read most-significant byte first.
pub open spec fn be_value(c: Seq<u8>) -> nat
    decreases c.len(),
{
    if c.len() == 0 {
        0
    } else {
        (256 * be_value(c.drop_last()) + c.last()) as nat
    }
}

/// Value of a chunk under a byte order.
pub open spec fn chunk_value(c: Seq<u8>, e: Endianness) -> nat {
    match e {
        Endianness::Little => le_value(c),
        Endianness::Big => be_value(c),
    }
}

/// The bytes that encode `v` least-significant first in `w` bytes.
pub open spec fn le_bytes(v: nat, w: nat) -> Seq<u8>
    decreases w,
{
    if w == 0 {
        Seq::empty()
    } else {
        seq![(v % 256) as u8] + le_bytes(v / 256, (w - 1) as nat)
    }
}

/// The bytes that encode `v` most-significant first in `w` bytes.
pub open spec fn be_bytes(v: nat, w: nat) -> Seq<u8>
    decreases w,
{
    if w == 0 {
        Seq::empty()
    } else {
        be_bytes(v / 256, (w - 1) as nat).push((v % 256) as u8)
    }
}

/// The bytes that encode `v` in `w` bytes under a byte order.
pub open spec fn chunk_bytes(v: nat, w: nat, e: Endianness) -> Seq<u8> {
    match e {
        Endianness::Little => le_bytes(v, w),
        Endianness::Big => be_bytes(v, w),
    }
}

/// What `decode_raw` returns: one raw value per complete chunk.
pub open spec fn decoded_values(b: Seq<u8>, t: DataType, e: Endianness) -> Seq<nat> {
    Seq::new(b.len() / elem_width(t), |i: int|
        chunk_value(b.subrange(i * elem_width(t), (i + 1) * elem_width(t)), e))
}

/// What `encode_raw` returns: the chunks of all values, concatenated.
pub open spec fn encoded_bytes(vs: Seq<nat>, w: nat, e: Endianness) -> Seq<u8>
    decreases vs.len(),
{
    if vs.len() == 0 {
        Seq::empty()
    } else {
        chunk_bytes(vs[0], w, e) + encoded_bytes(vs.drop_first(), w, e)
    }
}

/// A chunk value is below 256 to the chunk's width.
pub proof fn lemma_le_value_bound(c: Seq<u8>)
    ensures
        le_value(c) < pow256(c.len()),
    decreases c.len(),
{
    if c.len() > 0 {
        lemma_le_value_bound(c.subrange(1, c.len() as int));
    }
}

/// A chunk value is below 256 to the chunk's width.
pub proof fn lemma_be_value_bound(c: Seq<u8>)
    ensures
        be_value(c) < pow256(c.len()),
    decreases c.len(),
{
    if c.len() > 0 {
        lemma_be_value_bound(c.drop_last());
    }
}

/// Encoding the value a chunk holds restores the chunk.
pub proof fn lemma_le_bytes_of_value(c: Seq<u8>)
    ensures
        le_bytes(le_value(c), c.len()) == c,
    decreases c.len(),
{
    if c.len() > 0 {
        let tail = c.subrange(1, c.len() as int);
        let v = le_value(c);
        lemma_fundamental_div_mod_converse_mod(v as int, 256, le_value(tail) as int, c[0] as int);
        lemma_fundamental_div_mod_converse_div(v as int, 256, le_value(tail) as int, c[0] as int);
        lemma_le_bytes_of_value(tail);
        assert(le_bytes(v, c.len()) =~= c);
    } else {
        assert(le_bytes(le_value(c), c.len()) =~= c);
    }
}

/// Encoding the value a chunk holds restores the chunk.
pub proof fn lemma_be_bytes_of_value(c: Seq<u8>)
    ensures
        be_bytes(be_value(c), c.len()) == c,
    decreases c.len(),
{
    if c.len() > 0 {
        let head = c.drop_last();
        let v = be_value(c);
        lemma_fundamental_div_mod_converse_mod(v as int, 256, be_value(head) as int, c.last() as int);
        lemma_fundamental_div_mod_converse_div(v as int, 256, be_value(head) as int, c.last() as int);
        lemma_be_bytes_of_value(head);
        assert(be_bytes(v, c.len()) =~= c);
    } else {
        assert(be_bytes(be_value(c), c.len()) =~= c);
    }
}

/// `pow256` is positive.
pub proof fn lemma_pow256_pos(n: nat)
    ensures
        pow256(n) >= 1,
    decreases n,
{
    if n > 0 {
        lemma_pow256_pos((n - 1) as nat);
    }
}

/// The digits of a little-endian encoding, position by position.
pub proof fn lemma_le_bytes_index(v: nat, w: nat)
    ensures
        le_bytes(v, w).len() == w,
        forall|i: int| 0 <= i < w ==> le_bytes(v, w)[i] == ((v / pow256(i as nat)) % 256) as u8,
    decreases w,
{
    if w > 0 {
        lemma_le_bytes_index(v / 256, (w - 1) as nat);
        assert forall|i: int| 0 <= i < w implies
            le_bytes(v, w)[i] == ((v / pow256(i as nat)) % 256) as u8 by {
            if i == 0 {
                vstd::arithmetic::div_mod::lemma_div_basics(v as int);
            } else {
                assert(le_bytes(v, w)[i] == le_bytes(v / 256, (w - 1) as nat)[i - 1]);
                lemma_pow256_pos((i - 1) as nat);
                vstd::arithmetic::div_mod::lemma_div_denominator(
                    v as int, 256, pow256((i - 1) as nat) as int);
                assert(256 * pow256((i - 1) as nat) == pow256(i as nat));
            }
        }
    }
}

/// The digits of a big-endian encoding, position by position.
pub proof fn lemma_be_bytes_index(v: nat, w: nat)
    ensures
        be_bytes(v, w).len() == w,
        forall|i: int| 0 <= i < w ==> be_bytes(v, w)[i] == ((v / pow256((w - 1 - i) as nat)) % 256) as u8,
    decreases w,
{
    if w > 0 {
        lemma_be_bytes_index(v / 256, (w - 1) as nat);
        assert forall|i: int| 0 <= i < w implies
            be_bytes(v, w)[i] == ((v / pow256((w - 1 - i) as nat)) % 256) as u8 by {
            if i == w - 1 {
                vstd::arithmetic::div_mod::lemma_div_basics(v as int);
            } else {
                assert(be_bytes(v, w)[i] == be_bytes(v / 256, (w - 1) as nat)[i]);
                lemma_pow256_pos((w - 2 - i) as nat);
                vstd::arithmetic::div_mod::lemma_div_denominator(
                    v as int, 256, pow256((w - 2 - i) as nat) as int);
                assert(256 * pow256((w - 2 - i) as nat) == pow256((w - 1 - i) as nat));
            }
        }
    }
}

/// Decoding an encoded value restores the value, for values that fit.
pub proof fn lemma_le_value_of_bytes(v: nat, w: nat)
    requires
        v < pow256(w),
    ensures
        le_bytes(v, w).len() == w,
        le_value(le_bytes(v, w)) == v,
    decreases w,
{
    if w > 0 {
        vstd::arithmetic::div_mod::lemma_remainder_lower(v as int, 256);
        assert(v / 256 < pow256((w - 1) as nat)) by {
            if v / 256 >= pow256((w - 1) as nat) {
                vstd::arithmetic::div_mod::lemma_fundamental_div_mod(v as int, 256);
                vstd::arithmetic::mul::lemma_mul_inequality(
                    pow256((w - 1) as nat) as int, (v / 256) as int, 256);
            }
        }
        lemma_le_value_of_bytes(v / 256, (w - 1) as nat);
        let c = le_bytes(v, w);
        assert(c.subrange(1, c.len() as int) =~= le_bytes(v / 256, (w - 1) as nat));
        vstd::arithmetic::div_mod::lemma_fundamental_div_mod(v as int, 256);
    }
}

/// The chunk widths that occur, as concrete powers of 256.
pub proof fn lemma_pow256_widths()
    ensures
        pow256(0) == 1,
        pow256(1) == 0x100,
        pow256(2) == 0x10000,
        pow256(4) == 0x100000000,
        pow256(7) == 0x100000000000000,
        pow256(8) == 0x10000000000000000,
{
    reveal_with_fuel(pow256, 9);
}

/// Appending one value to an encoded run appends its chunk.
pub proof fn lemma_encoded_bytes_push(vs: Seq<nat>, x: nat, w: nat, e: Endianness)
    ensures
        encoded_bytes(vs.push(x), w, e) == encoded_bytes(vs, w, e) + chunk_bytes(x, w, e),
    decreases vs.len(),
{
    let s = vs.push(x);
    if vs.len() == 0 {
        assert(s[0] == x);
        assert(s.drop_first() =~= Seq::<nat>::empty());
        assert(encoded_bytes(s.drop_first(), w, e) == Seq::<u8>::empty());
        assert(encoded_bytes(s, w, e) == chunk_bytes(x, w, e) + Seq::<u8>::empty());
        assert(encoded_bytes(vs, w, e) == Seq::<u8>::empty());
        assert(chunk_bytes(x, w, e) + Seq::<u8>::empty()
            =~= Seq::<u8>::empty() + chunk_bytes(x, w, e));
    } else {
        assert(s[0] == vs[0]);
        assert(s.drop_first() =~= vs.drop_first().push(x));
        lemma_encoded_bytes_push(vs.drop_first(), x, w, e);
        assert(encoded_bytes(s, w, e)
            == chunk_bytes(vs[0], w, e) + (encoded_bytes(vs.drop_first(), w, e)
                + chunk_bytes(x, w, e)));
        assert(chunk_bytes(vs[0], w, e) + (encoded_bytes(vs.drop_first(), w, e)
                + chunk_bytes(x, w, e))
            =~= (chunk_bytes(vs[0], w, e) + encoded_bytes(vs.drop_first(), w, e))
                + chunk_bytes(x, w, e));
    }
}

/// Element width as an executable value.
pub fn elem_width_exec(t: DataType) -> (w: usize)
    ensures
        w == elem_width(t),
        1 <= w <= 8,
{
    match t {
        DataType::Int8 | DataType::UInt8 | DataType::Text | DataType::Blob => 1,
        DataType::Int16 | DataType::UInt16 => 2,
        DataType::Int32 | DataType::UInt32 | DataType::Float32 => 4,
        DataType::Float64 => 8,
    }
}

/// Decode a byte buffer into one raw unsigned value per complete element;
/// trailing bytes shorter than one element are dropped silently.
pub fn decode_raw(bytes: &Vec<u8>, t: DataType, e: Endianness) -> (r: Vec<u64>)
    ensures
        r@.len() == bytes@.len() / elem_width(t),
        forall|i: int| 0 <= i < r@.len() ==> r@[i] == decoded_values(bytes@, t, e)[i],
        forall|i: int| 0 <= i < r@.len() ==> r@[i] < pow256(elem_width(t)),
    {
    let w = elem_width_exec(t);
    let n = bytes.len() / w;
    proof {
        lemma_pow256_widths();
        vstd::arithmetic::div_mod::lemma_fundamental_div_mod(bytes@.len() as int, w as int);
    }
    let mut out: Vec<u64> = Vec::new();
    let mut i: usize = 0;
    while i < n
        invariant
            w == elem_width(t),
            1 <= w <= 8,
            n == bytes@.len() as int / w as int,
            n * w <= bytes@.len(),
            bytes@.len() <= usize::MAX,
            i <= n,
            out@.len() == i,
            forall|k: int| 0 <= k < i ==> out@[k] ==
                chunk_value(bytes@.subrange(k * w, (k + 1) * w), e),
            forall|k: int| 0 <= k < i ==> out@[k] < pow256(w as nat),
            pow256(8) == 0x10000000000000000,
        decreases n - i,
    {
        proof {
            vstd::arithmetic::mul::lemma_mul_inequality(i + 1, n as int, w as int);
            assert((i as int + 1) * w == i as int * w + w) by (nonlinear_arith);
        }
        let base = i * w;
        let chunk_v = read_chunk(bytes, base, w, e);
        proof {
            assert(bytes@.subrange(base as int, (base + w) as int)
                =~= bytes@.subrange(i as int * w, (i + 1) * w));
            match e {
                Endianness::Little => {
                    lemma_le_value_bound(bytes@.subrange(base as int, (base + w) as int));
                }
                Endianness::Big => {
                    lemma_be_value_bound(bytes@.subrange(base as int, (base + w) as int));
                }
            }
        }
        out.push(chunk_v);
        i += 1;
    }
    proof {
        assert forall|k: int| 0 <= k < out@.len() implies
            out@[k] == decoded_values(bytes@, t, e)[k] by {
            assert(decoded_values(bytes@, t, e)[k]
                == chunk_value(bytes@.subrange(k * w, (k + 1) * w), e));
        }
    }
    out
}

/// Read one element of `w` bytes starting at `base` under byte order `e`.
fn read_chunk(bytes: &Vec<u8>, base: usize, w: usize, e: Endianness) -> (v: u64)
    requires
        base + w <= bytes@.len(),
        1 <= w <= 8,
    ensures
        v == chunk_value(bytes@.subrange(base as int, (base + w) as int), e),
{
    proof {
        lemma_pow256_widths();
    }
    let total: usize = bytes.len();
    let ghost c = bytes@.subrange(base as int, (base + w) as int);
    let mut val: u64 = 0;
    match e {
        Endianness::Little => {
            let mut j: usize = w;
            while j > 0
                invariant
                    base + w <= bytes@.len(),
                    bytes@.len() == total,
                    1 <= w <= 8,
                    j <= w,
                    c == bytes@.subrange(base as int, (base + w) as int),
                    val == le_value(c.subrange(j as int, w as int)),
                    val < pow256((w - j) as nat),
                    pow256(8) == 0x10000000000000000,
                decreases j,
            {
                j -= 1;
                proof {
                    let sub = c.subrange(j as int, w as int);
                    assert(sub[0] == bytes@[base + j]);
                    assert(sub.subrange(1, sub.len() as int) =~= c.subrange(j + 1, w as int));
                    lemma_pow256_monotone((w - j - 1) as nat, 7);
                    assert(pow256((w - j) as nat) == 256 * pow256((w - j - 1) as nat));
                    vstd::arithmetic::mul::lemma_mul_inequality(
                        val as int + 1, pow256((w - j - 1) as nat) as int, 256);
                }
                val = val * 256 + (bytes[base + j] as u64);
            }
            proof {
                assert(c.subrange(0, w as int) =~= c);
            }
        }
        Endianness::Big => {
            let mut j: usize = 0;
            while j < w
                invariant
                    base + w <= bytes@.len(),
                    bytes@.len() == total,
                    1 <= w <= 8,
                    j <= w,
                    c == bytes@.subrange(base as int, (base + w) as int),
                    val == be_value(c.subrange(0, j as int)),
                    val < pow256(j as nat),
                    pow256(8) == 0x10000000000000000,
                decreases w - j,
            {
                proof {
                    let sub = c.subrange(0, j + 1);
                    assert(sub.last() == bytes@[base + j]);
                    assert(sub.drop_last() =~= c.subrange(0, j as int));
                    lemma_pow256_monotone(j as nat, 7);
                    assert(pow256((j + 1) as nat) == 256 * pow256(j as nat));
                    vstd::arithmetic::mul::lemma_mul_inequality(
                        val as int + 1, pow256(j as nat) as int, 256);
                }
                val = val * 256 + (bytes[base + j] as u64);
                j += 1;
            }
            proof {
                assert(c.subrange(0, w as int) =~= c);
            }
        }
    }
    val
}

/// `pow256` grows with its exponent.
pub proof fn lemma_pow256_monotone(a: nat, b: nat)
    requires
        a <= b,
    ensures
        pow256(a) <= pow256(b),
    decreases b,
{
    if a < b {
        lemma_pow256_monotone(a, (b - 1) as nat);
    }
}

/// Encode raw element values back into a byte buffer, one chunk of
/// `elem_width(t)` bytes per value, under byte order `e`.
pub fn encode_raw(values: &Vec<u64>, t: DataType, e: Endianness) -> (r: Vec<u8>)
    requires
        forall|i: int| 0 <= i < values@.len() ==> values@[i] < pow256(elem_width(t)),
    ensures
        r@ == encoded_bytes(values@.map_values(|v: u64| v as nat), elem_width(t), e),
        r@.len() == values@.len() * elem_width(t) as int,
{
    let w = elem_width_exec(t);
    let ghost vs = values@.map_values(|v: u64| v as nat);
    let mut out: Vec<u8> = Vec::new();
    let mut i: usize = 0;
    while i < values.len()
        invariant
            w == elem_width(t),
            1 <= w <= 8,
            vs == values@.map_values(|v: u64| v as nat),
            forall|k: int| 0 <= k < values@.len() ==> values@[k] < pow256(w as nat),
            i <= values@.len(),
            out@ == encoded_bytes(vs.take(i as int), w as nat, e),
            out@.len() == i * w,
        decreases values@.len() - i,
    {
        let v = values[i];
        let chunk = encode_chunk(v, w, e);
        let mut k: usize = 0;
        while k < chunk.len()
            invariant
                k <= chunk@.len(),
                out@ == encoded_bytes(vs.take(i as int), w as nat, e) + chunk@.take(k as int),
            decreases chunk@.len() - k,
        {
            let b = chunk[k];
            out.push(b);
            proof {
                assert(chunk@.take(k + 1) =~= chunk@.take(k as int).push(chunk@[k as int]));
                assert(out@ =~= encoded_bytes(vs.take(i as int), w as nat, e) + chunk@.take(k + 1));
            }
            k += 1;
        }
        proof {
            assert(chunk@.take(chunk@.len() as int) =~= chunk@);
            lemma_encoded_bytes_push(vs.take(i as int), vs[i as int], w as nat, e);
            assert(vs.take(i as int).push(vs[i as int]) =~= vs.take(i + 1));
            vstd::arithmetic::mul::lemma_mul_is_distributive_add_other_way(
                w as int, i as int, 1);
        }
        i += 1;
    }
    proof {
        assert(vs.take(values@.len() as int) =~= vs);
    }
    out
}

/// Encode one value into its `w`-byte chunk under byte order `e`.
fn encode_chunk(v: u64, w: usize, e: Endianness) -> (r: Vec<u8>)
    requires
        1 <= w <= 8,
        v < pow256(w as nat),
    ensures
        r@ == chunk_bytes(v as nat, w as nat, e),
        r@.len() == w,
{
    let mut digits: Vec<u8> = Vec::new();
    let mut cur: u64 = v;
    let mut j: usize = 0;
    while j < w
        invariant
            j <= w,
            w <= 8,
            digits@.len() == j,
            digits@ + le_bytes(cur as nat, (w - j) as nat) == le_bytes(v as nat, w as nat),
        decreases w - j,
    {
        proof {
            assert(le_bytes(cur as nat, (w - j) as nat)
                =~= seq![(cur as nat % 256) as u8] + le_bytes(cur as nat / 256, (w - j - 1) as nat));
            assert(digits@.push((cur % 256) as u8) + le_bytes(cur as nat / 256, (w - j - 1) as nat)
                =~= digits@ + le_bytes(cur as nat, (w - j) as nat));
        }
        digits.push((cur % 256) as u8);
        cur = cur / 256;
        j += 1;
    }
    proof {
        lemma_le_bytes_index(v as nat, w as nat);
        assert(le_bytes(cur as nat, 0) =~= Seq::<u8>::empty());
        assert(digits@ =~= le_bytes(v as nat, w as nat));
    }
    match e {
        Endianness::Little => digits,
        Endianness::Big => {
            let mut rev: Vec<u8> = Vec::new();
            let mut k: usize = 0;
            proof {
                lemma_be_bytes_index(v as nat, w as nat);
            }
            while k < w
                invariant
                    k <= w,
                    digits@ == le_bytes(v as nat, w as nat),
                    digits@.len() == w,
                    rev@.len() == k,
                    be_bytes(v as nat, w as nat).len() == w,
                    forall|x: int| 0 <= x < w ==> le_bytes(v as nat, w as nat)[x]
                        == ((v as nat / pow256(x as nat)) % 256) as u8,
                    forall|x: int| 0 <= x < w ==> be_bytes(v as nat, w as nat)[x]
                        == ((v as nat / pow256((w - 1 - x) as nat)) % 256) as u8,
                    forall|x: int| 0 <= x < k ==> rev@[x] == be_bytes(v as nat, w as nat)[x],
                decreases w - k,
            {
                rev.push(digits[w - 1 - k]);
                k += 1;
            }
            proof {
                assert(rev@ =~= be_bytes(v as nat, w as nat));
            }
            rev
        }
    }
}

/// Signed reading of a raw element pattern: two's complement for the signed
/// kinds, the value itself for the unsigned and per-byte kinds.
pub open spec fn signed_of_raw(v: nat, t: DataType) -> int {
    match t {
        DataType::Int8 => if v >= 0x80 { v - 0x100 } else { v as int },
        DataType::Int16 => if v >= 0x8000 { v - 0x10000 } else { v as int },
        DataType::Int32 => if v >= 0x80000000 { v - 0x100000000 } else { v as int },
        _ => v as int,
    }
}

/// Read a raw element pattern as a signed sample value.  The float kinds
/// carry IEEE bit patterns, not integers, so they are excluded; the shell
/// reinterprets their bits instead.
pub fn raw_to_signed(v: u64, t: DataType) -> (r: i64)
    requires
        !is_float_type(t),
        v < pow256(elem_width(t)),
    ensures
        r == signed_of_raw(v as nat, t),
{
    proof {
        lemma_pow256_widths();
    }
    match t {
        DataType::Int8 => {
            if v >= 0x80 {
                (v as i64) - 0x100
            } else {
                v as i64
            }
        }
        DataType::Int16 => {
            if v >= 0x8000 {
                (v as i64) - 0x10000
            } else {
                v as i64
            }
        }
        DataType::Int32 => {
            if v >= 0x80000000 {
                (v as i64) - 0x100000000
            } else {
                v as i64
            }
        }
        _ => v as i64,
    }
}

/// Decoding a buffer yields one sample per complete element, and encoding
/// those samples again restores the buffer truncated to a whole number of
/// elements.
pub proof fn lemma_codec_roundtrip(b: Seq<u8>, t: DataType, e: Endianness)
    ensures
        decoded_values(b, t, e).len() == b.len() / elem_width(t),
        encoded_bytes(decoded_values(b, t, e), elem_width(t), e)
            == b.take(((b.len() / elem_width(t)) * elem_width(t)) as int),
    decreases b.len(),
{
    let w = elem_width(t);
    let n = b.len() / w;
    vstd::arithmetic::div_mod::lemma_fundamental_div_mod(b.len() as int, w as int);
    if n == 0 {
        assert(encoded_bytes(decoded_values(b, t, e), w, e) =~= b.take(0));
    } else {
        let rest = b.skip(w as int);
        assert(rest.len() == b.len() - w);
        vstd::arithmetic::div_mod::lemma_div_minus_one(b.len() as int, w as int);
        assert(rest.len() / w == n - 1);
        let c0 = b.subrange(0, w as int);
        lemma_codec_roundtrip(rest, t, e);
        assert(decoded_values(b, t, e).drop_first() =~= decoded_values(rest, t, e)) by {
            assert forall|i: int| 0 <= i < n - 1 implies
                decoded_values(b, t, e).drop_first()[i] == decoded_values(rest, t, e)[i] by {
                assert(b.subrange((i + 1) * w, (i + 2) * w)
                    =~= rest.subrange(i * w, (i + 1) * w));
                assert(decoded_values(b, t, e)[i + 1]
                    == chunk_value(b.subrange((i + 1) * w, (i + 2) * w), e));
            }
        }
        assert(decoded_values(b, t, e)[0] == chunk_value(c0, e)) by {
            assert(b.subrange(0, w as int) =~= c0);
        }
        match e {
            Endianness::Little => lemma_le_bytes_of_value(c0),
            Endianness::Big => lemma_be_bytes_of_value(c0),
        }
        assert(chunk_bytes(chunk_value(c0, e), w, e) == c0);
        assert(encoded_bytes(decoded_values(b, t, e), w, e)
            == c0 + encoded_bytes(decoded_values(rest, t, e), w, e));
        assert(c0 + rest.take(((n - 1) * w) as int) =~= b.take((n * w) as int));
    }
}

} // verus!
