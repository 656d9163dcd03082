//! Splitting a scalar into chunks of a few bits each, and putting it together
//! again.
//!
//! A scalar is read as a number in base `2^b`, most significant digit first,
//! with as many digits as the bit length of the field's order needs.
use crate::error::Error;
use crate::scalar::{limbs_value, modulus, Scalar, MODULUS_BITS};
use vstd::arithmetic::div_mod::{
    lemma_add_mod_noop, lemma_div_denominator, lemma_fundamental_div_mod,
    lemma_fundamental_div_mod_converse, lemma_hoist_over_denominator, lemma_mod_bound,
    lemma_mod_breakdown, lemma_mod_multiples_vanish, lemma_mul_mod_noop_left, lemma_small_mod,
};
use vstd::arithmetic::mul::lemma_mul_is_commutative;
use vstd::arithmetic::power2::{
    lemma2_to64, lemma_pow2_adds, lemma_pow2_pos, lemma_pow2_strictly_increases, pow2,
};
use vstd::bits::{
    lemma_u64_low_bits_mask_is_mod, lemma_u64_pow2_no_overflow, lemma_u64_shr_is_div,
    low_bits_mask,
};
use vstd::prelude::*;

verus! {

/// The chunk sizes, in bits, that the library works with.
pub open spec fn is_supported_chunk_bit_size(chunk_bit_size: u8) -> bool {
    chunk_bit_size == 1 || chunk_bit_size == 2 || chunk_bit_size == 4 || chunk_bit_size == 8
        || chunk_bit_size == 16
}

/// The number of chunks of `chunk_bit_size` bits that hold a scalar: the bit
/// length of the field's order divided by the chunk size, rounded up.
pub open spec fn chunks_count_spec(chunk_bit_size: u8) -> nat
    recommends
        chunk_bit_size > 0,
{
    ((MODULUS_BITS + chunk_bit_size - 1) / (chunk_bit_size as int)) as nat
}

/// The chunk at index `i` of the number `x`: the digit of weight
/// `2^(b * (n - 1 - i))` of `x` in base `2^b`, where `b` is the chunk size
/// and `n` the number of chunks.
pub open spec fn chunk_of(x: nat, chunk_bit_size: u8, i: int) -> nat {
    (x / pow2((chunk_bit_size * (chunks_count_spec(chunk_bit_size) - 1 - i)) as nat)) % pow2(
        chunk_bit_size as nat,
    )
}

/// The chunks of the number `x`, most significant first.
pub open spec fn decompose_spec(x: nat, chunk_bit_size: u8) -> Seq<nat> {
    Seq::new(chunks_count_spec(chunk_bit_size), |i: int| chunk_of(x, chunk_bit_size, i))
}

/// The number with these digits in base `2^b`, most significant first: the
/// sum of `chunks[i] * 2^(b * (n - 1 - i))` over the `n` chunks.
pub open spec fn positional_value(chunks: Seq<nat>, chunk_bit_size: u8) -> nat
    decreases chunks.len(),
{
    if chunks.len() == 0 {
        0
    } else {
        positional_value(chunks.drop_last(), chunk_bit_size) * pow2(chunk_bit_size as nat)
            + chunks.last()
    }
}

/// The scalar that the chunks make up.
pub open spec fn compose_spec(chunks: Seq<nat>, chunk_bit_size: u8) -> nat {
    positional_value(chunks, chunk_bit_size) % modulus()
}

/// The chunks as numbers.
pub open spec fn chunk_values(chunks: Seq<u16>) -> Seq<nat> {
    Seq::new(chunks.len(), |i: int| chunks[i] as nat)
}

/// The first `j` chunks of `x` make up the number that is left of `x` when
/// the other chunks are cut off at the low end and what lies above the
/// chunks at the high end.
proof fn lemma_prefix_value(x: nat, chunk_bit_size: u8, j: nat)
    requires
        chunk_bit_size > 0,
        j <= chunks_count_spec(chunk_bit_size),
    ensures
        positional_value(decompose_spec(x, chunk_bit_size).take(j as int), chunk_bit_size) == (x
            / pow2((chunk_bit_size * (chunks_count_spec(chunk_bit_size) - j)) as nat)) % pow2(
            (chunk_bit_size * j) as nat,
        ),
    decreases j,
{
    let b = chunk_bit_size as nat;
    let n = chunks_count_spec(chunk_bit_size);
    let digits = decompose_spec(x, chunk_bit_size);
    let prefix = digits.take(j as int);
    assert(b * (n - j) >= 0 && b * j >= 0) by (nonlinear_arith)
        requires
            j <= n,
    ;
    lemma_pow2_pos((b * (n - j)) as nat);
    if j == 0 {
        lemma2_to64();
        assert(b * 0 == 0);
    } else {
        let i = (j - 1) as nat;
        lemma_prefix_value(x, chunk_bit_size, i);
        assert(prefix.drop_last() =~= digits.take(i as int));
        assert(prefix.last() == chunk_of(x, chunk_bit_size, i as int));
        let low = (b * (n - j)) as nat;
        assert(b * (n - 1 - i) == low);
        assert(b * (n - i) == low + b) by (nonlinear_arith)
            requires
                i == j - 1,
                low == b * (n - j),
        ;
        assert(b * j == b + b * i) by (nonlinear_arith)
            requires
                i == j - 1,
        ;
        assert(b * i >= 0) by (nonlinear_arith);
        let y = x / pow2(low);
        lemma_pow2_adds(low, b);
        lemma_pow2_adds(b, (b * i) as nat);
        lemma_pow2_pos(b);
        lemma_pow2_pos((b * i) as nat);
        lemma_div_denominator(x as int, pow2(low) as int, pow2(b) as int);
        assert(x / pow2((b * (n - i)) as nat) == y / pow2(b));
        lemma_mod_breakdown(y as int, pow2(b) as int, pow2((b * i) as nat) as int);
        lemma_mul_is_commutative(
            pow2(b) as int,
            ((y / pow2(b)) % pow2((b * i) as nat)) as int,
        );
    }
}

/// Putting the chunks of a scalar together gives the scalar back.
pub proof fn lemma_compose_decompose(x: nat, chunk_bit_size: u8)
    requires
        is_supported_chunk_bit_size(chunk_bit_size),
        x < modulus(),
    ensures
        positional_value(decompose_spec(x, chunk_bit_size), chunk_bit_size) == x,
        compose_spec(decompose_spec(x, chunk_bit_size), chunk_bit_size) == x,
{
    let b = chunk_bit_size as nat;
    let n = chunks_count_spec(chunk_bit_size);
    let digits = decompose_spec(x, chunk_bit_size);
    lemma_prefix_value(x, chunk_bit_size, n);
    assert(digits.take(n as int) =~= digits);
    assert(b * (n - n) == 0);
    assert(b * n >= 255);
    lemma2_to64();
    lemma_modulus_below_pow2_255();
    if b * n > 255 {
        lemma_pow2_strictly_increases(255, b * n);
    }
    assert(x / pow2(0) == x) by (nonlinear_arith)
        requires
            pow2(0) == 1,
    ;
    assert(positional_value(digits, chunk_bit_size) == x % pow2(b * n));
    lemma_small_mod(x, pow2(b * n));
    lemma_small_mod(x, modulus());
}

/// The field's order has 255 bits.
pub proof fn lemma_modulus_below_pow2_255()
    ensures
        modulus() < pow2(255),
        pow2(255) == 0x8000000000000000000000000000000000000000000000000000000000000000nat,
{
    lemma2_to64();
    lemma_pow2_adds(64, 64);
    lemma_pow2_adds(128, 64);
    lemma_pow2_adds(192, 63);
    assert(pow2(63) == 0x8000000000000000nat) by {
        lemma_pow2_adds(32, 31);
    }
    assert(pow2(128) == 0x100000000000000000000000000000000nat);
    assert(pow2(192) == 0x1000000000000000000000000000000000000000000000000nat);
}

/// Every chunk of a number is below `2^b`, and the most significant chunk
/// of a scalar is below `2^(255 - b * (n - 1))`.
pub proof fn lemma_chunk_bounds(x: nat, chunk_bit_size: u8, i: int)
    requires
        is_supported_chunk_bit_size(chunk_bit_size),
        0 <= i < chunks_count_spec(chunk_bit_size),
    ensures
        chunk_of(x, chunk_bit_size, i) < pow2(chunk_bit_size as nat),
        x < modulus() ==> chunk_of(x, chunk_bit_size, 0) < pow2(
            (255 - chunk_bit_size * (chunks_count_spec(chunk_bit_size) - 1)) as nat,
        ),
{
    let b = chunk_bit_size as nat;
    let n = chunks_count_spec(chunk_bit_size);
    lemma_pow2_pos(b);
    let low = (b * (n - 1 - i)) as nat;
    lemma_pow2_pos(low);
    lemma_mod_bound((x / pow2(low)) as int, pow2(b) as int);
    if x < modulus() {
        let top = (b * (n - 1)) as nat;
        let rest = (255 - top) as nat;
        lemma_pow2_pos(top);
        lemma_pow2_pos(rest);
        lemma_modulus_below_pow2_255();
        lemma_pow2_adds(top, rest);
        let q = x / pow2(top);
        lemma_fundamental_div_mod(x as int, pow2(top) as int);
        assert(q < pow2(rest)) by (nonlinear_arith)
            requires
                x == pow2(top) * q + x % pow2(top),
                0 <= x % pow2(top),
                x < pow2(top) * pow2(rest),
                pow2(top) > 0,
        ;
        lemma_mod_bound(q as int, pow2(b) as int);
        assert(q % pow2(b) <= q) by {
            lemma_fundamental_div_mod(q as int, pow2(b) as int);
            assert(pow2(b) * (q / pow2(b)) >= 0) by (nonlinear_arith)
                requires
                    q / pow2(b) >= 0,
                    pow2(b) > 0,
            ;
        }
    }
}

/// The limb at index `k` holds the bits of the value from `64 * k` on.
proof fn lemma_limb_of_value(limbs: Seq<u64>, k: nat)
    requires
        limbs.len() == 4,
        k < 4,
    ensures
        (limbs_value(limbs) / pow2(64 * k)) % pow2(64) == limbs[k as int],
{
    let w: int = 0x10000000000000000;
    let v = limbs_value(limbs) as int;
    let (l0, l1, l2, l3) = (limbs[0] as int, limbs[1] as int, limbs[2] as int, limbs[3] as int);
    lemma2_to64();
    lemma_pow2_adds(64, 64);
    lemma_pow2_adds(128, 64);
    assert(pow2(64) == w);
    assert(pow2(128) == w * w);
    assert(pow2(192) == w * w * w);
    assert(w * w == 0x100000000000000000000000000000000);
    assert(w * w * w == 0x1000000000000000000000000000000000000000000000000);
    assert(v == l0 + l1 * w + l2 * (w * w) + l3 * (w * w * w));
    if k == 0 {
        assert(pow2(0) == 1);
        assert(v / 1 == v);
        let q = l1 + l2 * w + l3 * (w * w);
        assert(v == q * w + l0) by (nonlinear_arith)
            requires
                v == l0 + l1 * w + l2 * (w * w) + l3 * (w * w * w),
                q == l1 + l2 * w + l3 * (w * w),
        ;
        lemma_fundamental_div_mod_converse(v, w, q, l0);
    } else if k == 1 {
        let q = l1 + l2 * w + l3 * (w * w);
        assert(v == q * w + l0) by (nonlinear_arith)
            requires
                v == l0 + l1 * w + l2 * (w * w) + l3 * (w * w * w),
                q == l1 + l2 * w + l3 * (w * w),
        ;
        lemma_fundamental_div_mod_converse(v, w, q, l0);
        let q2 = l2 + l3 * w;
        assert(q == q2 * w + l1) by (nonlinear_arith)
            requires
                q == l1 + l2 * w + l3 * (w * w),
                q2 == l2 + l3 * w,
        ;
        lemma_fundamental_div_mod_converse(q, w, q2, l1);
    } else if k == 2 {
        let q = l2 + l3 * w;
        let r = l0 + l1 * w;
        assert(v == q * (w * w) + r) by (nonlinear_arith)
            requires
                v == l0 + l1 * w + l2 * (w * w) + l3 * (w * w * w),
                q == l2 + l3 * w,
                r == l0 + l1 * w,
        ;
        lemma_fundamental_div_mod_converse(v, w * w, q, r);
        lemma_fundamental_div_mod_converse(q, w, l3, l2);
    } else {
        let r = l0 + l1 * w + l2 * (w * w);
        assert(v == l3 * (w * w * w) + r);
        lemma_fundamental_div_mod_converse(v, w * w * w, l3, r);
        lemma_small_mod(l3 as nat, w as nat);
    }
}

/// The `b` bits from bit `s` on of a number are those of its lowest 64 bits,
/// where they lie within them.
proof fn lemma_digit_within_limb(y: nat, s: nat, b: nat)
    requires
        s + b <= 64,
    ensures
        (y / pow2(s)) % pow2(b) == ((y % pow2(64)) / pow2(s)) % pow2(b),
{
    let w = pow2(64) as int;
    let ps = pow2(s) as int;
    let pb = pow2(b) as int;
    let rest = (64 - s - b) as nat;
    let pr = pow2(rest) as int;
    lemma_pow2_pos(64);
    lemma_pow2_pos(s);
    lemma_pow2_pos(b);
    lemma_pow2_pos(rest);
    lemma_pow2_adds(b, rest);
    lemma_pow2_adds(s, b + rest);
    assert(w == ps * (pb * pr));
    let q = (y / pow2(64)) as int;
    let r = (y % pow2(64)) as int;
    lemma_fundamental_div_mod(y as int, w);
    let j = pb * (pr * q);
    assert(y == r + j * ps) by (nonlinear_arith)
        requires
            y == w * q + r,
            w == ps * (pb * pr),
            j == pb * (pr * q),
    ;
    lemma_hoist_over_denominator(r, j, ps as nat);
    assert(y as int / ps == r / ps + j);
    lemma_mod_multiples_vanish(pr * q, r / ps, pb);
}

/// Shifting a limb right by `s` and masking `b` bits reads the digit of `b`
/// bits at bit `off` of the value, where `s` is the place of that bit in its
/// limb.
proof fn lemma_limb_digit(limbs: Seq<u64>, off: nat, b: nat)
    requires
        limbs.len() == 4,
        1 <= b <= 16,
        off < 256,
        off % 64 + b <= 64,
    ensures
        ((limbs[(off / 64) as int] >> ((off % 64) as u64)) & (low_bits_mask(b) as u64)) == (
        limbs_value(limbs) / pow2(off)) % pow2(b),
{
    let k = off / 64;
    let s = off % 64;
    let limb = limbs[k as int];
    let v = limbs_value(limbs);
    let y = v / pow2(64 * k);
    lemma_pow2_pos(64 * k);
    lemma_pow2_pos(s);
    lemma_pow2_pos(b);
    lemma_pow2_adds(64 * k, s);
    lemma_div_denominator(v as int, pow2(64 * k) as int, pow2(s) as int);
    assert(v / pow2(off) == y / pow2(s));
    lemma_digit_within_limb(y, s, b);
    lemma_limb_of_value(limbs, k);
    assert((v / pow2(off)) % pow2(b) == (limb as nat / pow2(s)) % pow2(b));
    lemma_u64_shr_is_div(limb, s as u64);
    let shifted = limb >> (s as u64);
    lemma_u64_low_bits_mask_is_mod(shifted, b);
    lemma_u64_pow2_no_overflow(b);
}

/// The chunks of a scalar, most significant first.
pub fn decompose(message: &Scalar, chunk_bit_size: u8) -> (r: Result<Vec<u16>, Error>)
    ensures
        !is_supported_chunk_bit_size(chunk_bit_size) ==> r == Err::<Vec<u16>, Error>(
            Error::InvalidChunkBitSize(chunk_bit_size),
        ),
        is_supported_chunk_bit_size(chunk_bit_size) ==> r.is_ok(),
        r matches Ok(chunks) ==> {
            &&& chunks.len() == chunks_count_spec(chunk_bit_size)
            &&& chunk_values(chunks@) == decompose_spec(message@, chunk_bit_size)
            &&& forall|k: int|
                0 <= k < chunks.len() ==> (#[trigger] chunks[k]) < pow2(chunk_bit_size as nat)
            &&& compose_spec(chunk_values(chunks@), chunk_bit_size) == message@
        },
{
    if !supports_chunk_bit_size(chunk_bit_size) {
        return Err(Error::InvalidChunkBitSize(chunk_bit_size));
    }
    let limbs = message.limbs();
    let bits: usize = chunk_bit_size as usize;
    let n: usize = chunks_count(chunk_bit_size) as usize;
    let mask: u64 = if chunk_bit_size == 1 {
        0x1
    } else if chunk_bit_size == 2 {
        0x3
    } else if chunk_bit_size == 4 {
        0xf
    } else if chunk_bit_size == 8 {
        0xff
    } else {
        0xffff
    };
    proof {
        lemma2_to64();
        assert(mask == low_bits_mask(bits as nat));
    }
    let mut chunks: Vec<u16> = Vec::new();
    let mut i: usize = 0;
    while i < n
        invariant
            i <= n,
            n == chunks_count_spec(chunk_bit_size),
            is_supported_chunk_bit_size(chunk_bit_size),
            bits == chunk_bit_size,
            mask == low_bits_mask(bits as nat),
            mask <= 0xffff,
            limbs_value(limbs@) == message@,
            chunks.len() == i,
            forall|k: int|
                0 <= k < i ==> (#[trigger] chunks[k]) as nat == chunk_of(
                    message@,
                    chunk_bit_size,
                    k,
                ),
        decreases n - i,
    {
        let off: usize = bits * (n - 1 - i);
        let limb: u64 = limbs[off / 64];
        let shift: u64 = (off % 64) as u64;
        let digit: u64 = (limb >> shift) & mask;
        proof {
            lemma_limb_digit(limbs@, off as nat, bits as nat);
            assert(digit <= mask) by (bit_vector)
                requires
                    digit == (limb >> shift) & mask,
            ;
        }
        chunks.push(digit as u16);
        i += 1;
    }
    proof {
        assert(chunk_values(chunks@) =~= decompose_spec(message@, chunk_bit_size));
        use_type_invariant(message);
        lemma_compose_decompose(message@, chunk_bit_size);
        assert forall|k: int| 0 <= k < chunks.len() implies (#[trigger] chunks[k]) < pow2(
            chunk_bit_size as nat,
        ) by {
            lemma_chunk_bounds(message@, chunk_bit_size, k);
        }
    }
    Ok(chunks)
}

/// The scalar that the chunks make up: the number with these digits in base
/// `2^chunk_bit_size`, most significant first, reduced by the field's order.
pub fn compose(chunks: &[u16], chunk_bit_size: u8) -> (r: Result<Scalar, Error>)
    ensures
        !is_supported_chunk_bit_size(chunk_bit_size) ==> r == Err::<Scalar, Error>(
            Error::InvalidChunkBitSize(chunk_bit_size),
        ),
        is_supported_chunk_bit_size(chunk_bit_size) && chunks.len() != chunks_count_spec(
            chunk_bit_size,
        ) ==> r == Err::<Scalar, Error>(Error::MessageNotInChunks),
        is_supported_chunk_bit_size(chunk_bit_size) && chunks.len() == chunks_count_spec(
            chunk_bit_size,
        ) ==> r.is_ok(),
        r matches Ok(s) ==> s@ == compose_spec(chunk_values(chunks@), chunk_bit_size),
{
    if !supports_chunk_bit_size(chunk_bit_size) {
        return Err(Error::InvalidChunkBitSize(chunk_bit_size));
    }
    if chunks.len() != chunks_count(chunk_bit_size) as usize {
        return Err(Error::MessageNotInChunks);
    }
    let radix_value: u64 = if chunk_bit_size == 1 {
        0x2
    } else if chunk_bit_size == 2 {
        0x4
    } else if chunk_bit_size == 4 {
        0x10
    } else if chunk_bit_size == 8 {
        0x100
    } else {
        0x10000
    };
    let radix = Scalar::from_u64(radix_value);
    let ghost values = chunk_values(chunks@);
    let mut acc = Scalar::zero();
    proof {
        lemma2_to64();
        lemma_small_mod(0, modulus());
        assert(values.take(0) =~= Seq::<nat>::empty());
    }
    let mut i: usize = 0;
    while i < chunks.len()
        invariant
            i <= chunks.len(),
            values == chunk_values(chunks@),
            radix@ == pow2(chunk_bit_size as nat),
            acc@ == positional_value(values.take(i as int), chunk_bit_size) % modulus(),
        decreases chunks.len() - i,
    {
        let digit = Scalar::from_u64(chunks[i] as u64);
        let shifted = acc.mul(&radix);
        let next = shifted.add(&digit);
        proof {
            let m = modulus() as int;
            let before = positional_value(values.take(i as int), chunk_bit_size) as int;
            let after = positional_value(values.take(i + 1), chunk_bit_size) as int;
            assert(values.take(i + 1).drop_last() =~= values.take(i as int));
            assert(values.take(i + 1).last() == chunks[i as int] as nat);
            assert(after == before * radix@ + digit@);
            lemma_mul_mod_noop_left(before, radix@ as int, m);
            lemma_add_mod_noop(before * radix@, digit@ as int, m);
            lemma_small_mod(shifted@, modulus());
            lemma_small_mod(digit@, modulus());
        }
        acc = next;
        i += 1;
    }
    proof {
        assert(values.take(chunks.len() as int) =~= values);
    }
    Ok(acc)
}

/// Whether `chunk_bit_size` is one of the supported chunk sizes.
pub fn supports_chunk_bit_size(chunk_bit_size: u8) -> (r: bool)
    ensures
        r == is_supported_chunk_bit_size(chunk_bit_size),
{
    chunk_bit_size == 1 || chunk_bit_size == 2 || chunk_bit_size == 4 || chunk_bit_size == 8
        || chunk_bit_size == 16
}

/// The number of chunks of `chunk_bit_size` bits that hold a scalar.
pub fn chunks_count(chunk_bit_size: u8) -> (r: u8)
    requires
        chunk_bit_size > 0,
    ensures
        r == chunks_count_spec(chunk_bit_size),
        r >= 1,
{
    let bits: usize = chunk_bit_size as usize;
    let count: usize = (MODULUS_BITS + bits - 1) / bits;
    assert(1 <= count <= 255) by (nonlinear_arith)
        requires
            1 <= bits <= 255,
            count == (255 + bits - 1) / (bits as int),
    ;
    count as u8
}

/// The number of bits that the chunk at `index` of a scalar can have: the
/// chunk size, but for the most significant chunk, which has what is left of
/// the 255 bits of the field's order above the other chunks. Every chunk of
/// every scalar fits in its width.
pub fn chunk_bit_width(chunk_bit_size: u8, index: usize) -> (r: usize)
    requires
        is_supported_chunk_bit_size(chunk_bit_size),
        index < chunks_count_spec(chunk_bit_size),
    ensures
        r == (if index == 0 {
            255 - chunk_bit_size * (chunks_count_spec(chunk_bit_size) - 1)
        } else {
            chunk_bit_size as int
        }),
        1 <= r <= chunk_bit_size,
        forall|x: nat|
            x < modulus() ==> #[trigger] chunk_of(x, chunk_bit_size, index as int) < pow2(r as nat),
{
    let bits: usize = chunk_bit_size as usize;
    let n: usize = chunks_count(chunk_bit_size) as usize;
    assert(255 - bits <= bits * (n - 1) <= 254) by (nonlinear_arith)
        requires
            (bits == 1 && n == 255) || (bits == 2 && n == 128) || (bits == 4 && n == 64) || (bits
                == 8 && n == 32) || (bits == 16 && n == 16),
    ;
    let width: usize = if index == 0 {
        MODULUS_BITS - bits * (n - 1)
    } else {
        bits
    };
    proof {
        assert forall|x: nat| x < modulus() implies #[trigger] chunk_of(
            x,
            chunk_bit_size,
            index as int,
        ) < pow2(width as nat) by {
            lemma_chunk_bounds(x, chunk_bit_size, index as int);
        }
    }
    width
}

} // verus!
