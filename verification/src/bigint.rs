//! Fixed-width big integers: six 64-bit limbs, little-endian.
//!
//! This is the canonical encoding of field-element representatives: a
//! 384-bit unsigned integer held as limbs, convertible to and from
//! little-endian bytes, comparable, and divisible through an
//! arbitrary-precision integer library.

use vstd::prelude::*;
use vstd::arithmetic::power2::{lemma_pow2_adds, lemma_pow2_pos, lemma_pow2_strictly_increases, pow2};
use vstd::arithmetic::div_mod::{
    lemma_fundamental_div_mod, lemma_fundamental_div_mod_converse, lemma_mod_bound,
};
use vstd::arithmetic::power2::lemma2_to64_rest;

verus! {

/// A 384-bit unsigned integer: six 64-bit limbs, least significant first.
#[derive(Clone, Copy, Debug, PartialEq, Eq)]
pub struct Limbs384 {
    pub limbs: [u64; 6],
}

/// The integer a little-endian byte string denotes.
pub open spec fn le_bytes_value(b: Seq<u8>) -> nat
    decreases b.len(),
{
    if b.len() == 0 {
        0
    } else {
        (b[0] + 256 * le_bytes_value(b.skip(1))) as nat
    }
}

/// The integer a little-endian limb string denotes.
pub open spec fn limbs_value(l: Seq<u64>) -> nat
    decreases l.len(),
{
    if l.len() == 0 {
        0
    } else {
        (l[0] + 0x10000000000000000 * limbs_value(l.skip(1))) as nat
    }
}

/// The eight little-endian bytes of one limb.
pub open spec fn le8(x: u64) -> Seq<u8> {
    seq![
        (x & 0xff) as u8,
        ((x >> 8) & 0xff) as u8,
        ((x >> 16) & 0xff) as u8,
        ((x >> 24) & 0xff) as u8,
        ((x >> 32) & 0xff) as u8,
        ((x >> 40) & 0xff) as u8,
        ((x >> 48) & 0xff) as u8,
        ((x >> 56) & 0xff) as u8,
    ]
}

/// The little-endian byte rendering of a limb string.
pub open spec fn bytes_of_limbs(l: Seq<u64>) -> Seq<u8>
    decreases l.len(),
{
    if l.len() == 0 {
        Seq::<u8>::empty()
    } else {
        le8(l[0]) + bytes_of_limbs(l.skip(1))
    }
}

/// The eight bytes of a limb denote the limb.
proof fn lemma_le8_value(x: u64)
    ensures
        le_bytes_value(le8(x)) == x,
{
    let b = le8(x);
    reveal_with_fuel(le_bytes_value, 9);
    assert(b.skip(1) =~= seq![b[1], b[2], b[3], b[4], b[5], b[6], b[7]]);
    assert(b.skip(1).skip(1) =~= seq![b[2], b[3], b[4], b[5], b[6], b[7]]);
    assert(b.skip(1).skip(1).skip(1) =~= seq![b[3], b[4], b[5], b[6], b[7]]);
    assert(b.skip(1).skip(1).skip(1).skip(1) =~= seq![b[4], b[5], b[6], b[7]]);
    assert(b.skip(1).skip(1).skip(1).skip(1).skip(1) =~= seq![b[5], b[6], b[7]]);
    assert(b.skip(1).skip(1).skip(1).skip(1).skip(1).skip(1) =~= seq![b[6], b[7]]);
    assert(b.skip(1).skip(1).skip(1).skip(1).skip(1).skip(1).skip(1) =~= seq![b[7]]);
    assert(b.skip(1).skip(1).skip(1).skip(1).skip(1).skip(1).skip(1).skip(1)
        =~= Seq::<u8>::empty());
    assert((x & 0xff) < 256 && ((x >> 8) & 0xff) < 256 && ((x >> 16) & 0xff) < 256 && ((x >> 24)
        & 0xff) < 256 && ((x >> 32) & 0xff) < 256 && ((x >> 40) & 0xff) < 256 && ((x >> 48)
        & 0xff) < 256 && ((x >> 56) & 0xff) < 256) by (bit_vector);
    assert(x == (x & 0xff) + 256 * (((x >> 8) & 0xff) + 256 * (((x >> 16) & 0xff) + 256 * (((x
        >> 24) & 0xff) + 256 * (((x >> 32) & 0xff) + 256 * (((x >> 40) & 0xff) + 256 * (((x >> 48)
        & 0xff) + 256 * ((x >> 56) & 0xff)))))))) by (bit_vector);
    assert(le_bytes_value(b) == b[0] + 256 * (b[1] + 256 * (b[2] + 256 * (b[3] + 256 * (b[4] + 256
        * (b[5] + 256 * (b[6] + 256 * (b[7] as nat))))))));
}

/// Concatenation of byte strings: the tail is shifted by the head's width.
proof fn lemma_le_bytes_concat(x: Seq<u8>, y: Seq<u8>)
    ensures
        le_bytes_value(x + y) == le_bytes_value(x) + pow2(8 * x.len()) * le_bytes_value(y),
    decreases x.len(),
{
    if x.len() == 0 {
        assert(x + y =~= y);
        assert(pow2(0) == 1) by {
            vstd::arithmetic::power2::lemma2_to64();
        }
    } else {
        assert((x + y).skip(1) =~= x.skip(1) + y);
        lemma_le_bytes_concat(x.skip(1), y);
        lemma_pow2_adds(8, 8 * (x.len() - 1) as nat);
        assert(pow2(8) == 256) by {
            vstd::arithmetic::power2::lemma2_to64();
        }
        let a = le_bytes_value(x.skip(1));
        let p = pow2(8 * (x.len() - 1) as nat);
        let v = le_bytes_value(y);
        assert(256 * (a + p * v) == 256 * a + (256 * p) * v) by (nonlinear_arith);
    }
}

/// A byte string of `n` bytes denotes less than `2 ^ (8 n)`.
proof fn lemma_le_bytes_bound(b: Seq<u8>)
    ensures
        le_bytes_value(b) < pow2(8 * b.len()),
    decreases b.len(),
{
    if b.len() == 0 {
        assert(pow2(0) == 1) by {
            vstd::arithmetic::power2::lemma2_to64();
        }
    } else {
        lemma_le_bytes_bound(b.skip(1));
        lemma_pow2_adds(8, 8 * (b.len() - 1) as nat);
        assert(pow2(8) == 256) by {
            vstd::arithmetic::power2::lemma2_to64();
        }
        let a = le_bytes_value(b.skip(1));
        let p = pow2(8 * (b.len() - 1) as nat);
        assert(a <= p - 1);
        assert(256 * a <= 256 * (p - 1)) by (nonlinear_arith)
            requires a <= p - 1;
    }
}

/// Concatenation of limb strings.
proof fn lemma_limbs_concat(x: Seq<u64>, y: Seq<u64>)
    ensures
        limbs_value(x + y) == limbs_value(x) + pow2(64 * x.len()) * limbs_value(y),
    decreases x.len(),
{
    if x.len() == 0 {
        assert(x + y =~= y);
        assert(pow2(0) == 1) by {
            vstd::arithmetic::power2::lemma2_to64();
        }
    } else {
        assert((x + y).skip(1) =~= x.skip(1) + y);
        lemma_limbs_concat(x.skip(1), y);
        lemma_pow2_adds(64, 64 * (x.len() - 1) as nat);
        assert(pow2(64) == 0x10000000000000000) by {
            vstd::arithmetic::power2::lemma2_to64_rest();
        }
        let a = limbs_value(x.skip(1));
        let p = pow2(64 * (x.len() - 1) as nat);
        let v = limbs_value(y);
        assert(0x10000000000000000 * (a + p * v) == 0x10000000000000000 * a
            + (0x10000000000000000 * p) * v) by (nonlinear_arith);
    }
}

/// A limb string of `n` limbs denotes less than `2 ^ (64 n)`.
proof fn lemma_limbs_bound(l: Seq<u64>)
    ensures
        limbs_value(l) < pow2(64 * l.len()),
    decreases l.len(),
{
    if l.len() == 0 {
        assert(pow2(0) == 1) by {
            vstd::arithmetic::power2::lemma2_to64();
        }
    } else {
        lemma_limbs_bound(l.skip(1));
        lemma_pow2_adds(64, 64 * (l.len() - 1) as nat);
        assert(pow2(64) == 0x10000000000000000) by {
            vstd::arithmetic::power2::lemma2_to64_rest();
        }
        let a = limbs_value(l.skip(1));
        let p = pow2(64 * (l.len() - 1) as nat);
        assert(0x10000000000000000 * a <= 0x10000000000000000 * (p - 1)) by (nonlinear_arith)
            requires a <= p - 1;
    }
}

/// The byte rendering of limbs denotes the same integer.
proof fn lemma_bytes_of_limbs_value(l: Seq<u64>)
    ensures
        bytes_of_limbs(l).len() == 8 * l.len(),
        le_bytes_value(bytes_of_limbs(l)) == limbs_value(l),
    decreases l.len(),
{
    if l.len() > 0 {
        lemma_bytes_of_limbs_value(l.skip(1));
        lemma_le_bytes_concat(le8(l[0]), bytes_of_limbs(l.skip(1)));
        lemma_le8_value(l[0]);
        assert(pow2(64) == 0x10000000000000000) by {
            vstd::arithmetic::power2::lemma2_to64_rest();
        }
    }
}

/// Renders the limbs as 48 little-endian bytes.
pub fn bigint_to_bytes(x: &Limbs384) -> (r: Vec<u8>)
    ensures
        r@ == bytes_of_limbs(x.limbs@),
        r@.len() == 48,
        le_bytes_value(r@) == limbs_value(x.limbs@),
{
    let mut out: Vec<u8> = Vec::new();
    let mut i: usize = 0;
    #[verifier::loop_isolation(false)]
    while i < 6
        invariant
            i <= 6,
            out@ == bytes_of_limbs(x.limbs@.take(i as int)),
        decreases 6 - i,
    {
        let w = x.limbs[i];
        out.push((w & 0xff) as u8);
        out.push(((w >> 8) & 0xff) as u8);
        out.push(((w >> 16) & 0xff) as u8);
        out.push(((w >> 24) & 0xff) as u8);
        out.push(((w >> 32) & 0xff) as u8);
        out.push(((w >> 40) & 0xff) as u8);
        out.push(((w >> 48) & 0xff) as u8);
        out.push(((w >> 56) & 0xff) as u8);
        proof {
            let pre = x.limbs@.take(i as int);
            let post = x.limbs@.take(i + 1);
            assert(out@ =~= bytes_of_limbs(pre) + le8(w));
            lemma_bytes_of_limbs_snoc(x.limbs@, i as int);
        }
        i = i + 1;
    }
    proof {
        assert(x.limbs@.take(6) =~= x.limbs@);
        lemma_bytes_of_limbs_value(x.limbs@);
    }
    out
}

/// Rendering one more limb appends its eight bytes.
proof fn lemma_bytes_of_limbs_snoc(l: Seq<u64>, i: int)
    requires
        0 <= i < l.len(),
    ensures
        bytes_of_limbs(l.take(i + 1)) == bytes_of_limbs(l.take(i)) + le8(l[i]),
    decreases i,
{
    reveal_with_fuel(bytes_of_limbs, 3);
    if i == 0 {
        assert(l.take(1) =~= seq![l[0]]);
        assert(l.take(1).skip(1) =~= Seq::<u64>::empty());
        assert(l.take(0) =~= Seq::<u64>::empty());
        assert(seq![l[0]].skip(1) =~= Seq::<u64>::empty());
        assert(bytes_of_limbs(l.take(1)) =~= le8(l[0]));
        assert(bytes_of_limbs(l.take(0)) + le8(l[0]) =~= le8(l[0]));
    } else {
        lemma_bytes_of_limbs_snoc(l.skip(1), i - 1);
        assert(l.take(i + 1).skip(1) =~= l.skip(1).take(i));
        assert(l.take(i).skip(1) =~= l.skip(1).take(i - 1));
        assert(l.take(i + 1)[0] == l[0]);
        assert(l.take(i)[0] == l[0]);
        assert(l.skip(1)[i - 1] == l[i]);
        assert(bytes_of_limbs(l.take(i + 1)) =~= le8(l[0]) + bytes_of_limbs(l.skip(1).take(i)));
        assert(bytes_of_limbs(l.take(i)) + le8(l[i]) =~= le8(l[0]) + (bytes_of_limbs(l.skip(
            1).take(i - 1)) + le8(l.skip(1)[i - 1])));
    }
}

/// The byte of `b` at `i`, reading zero past the end.
pub open spec fn byte_at(b: Seq<u8>, i: int) -> u8 {
    if 0 <= i < b.len() {
        b[i]
    } else {
        0
    }
}

/// `b` truncated or zero-padded to 48 bytes.
pub open spec fn pad48(b: Seq<u8>) -> Seq<u8> {
    Seq::new(48, |i: int| byte_at(b, i))
}

/// Reads the byte of `b` at `i`, zero past the end.
fn byte_at_exec(b: &Vec<u8>, i: usize) -> (r: u8)
    ensures
        r == byte_at(b@, i as int),
{
    if i < b.len() {
        b[i]
    } else {
        0
    }
}

/// Packs the 48 little-endian bytes starting at `base` into one limb.
fn limb_from_bytes(b: &Vec<u8>, base: usize) -> (r: u64)
    requires
        base <= 40,
    ensures
        le8(r) == Seq::new(8, |j: int| byte_at(b@, base + j)),
{
    let b0 = byte_at_exec(b, base) as u64;
    let b1 = byte_at_exec(b, base + 1) as u64;
    let b2 = byte_at_exec(b, base + 2) as u64;
    let b3 = byte_at_exec(b, base + 3) as u64;
    let b4 = byte_at_exec(b, base + 4) as u64;
    let b5 = byte_at_exec(b, base + 5) as u64;
    let b6 = byte_at_exec(b, base + 6) as u64;
    let b7 = byte_at_exec(b, base + 7) as u64;
    let w = b0 | (b1 << 8) | (b2 << 16) | (b3 << 24) | (b4 << 32) | (b5 << 40) | (b6 << 48)
        | (b7 << 56);
    proof {
        assert((w & 0xff) == b0 && ((w >> 8) & 0xff) == b1 && ((w >> 16) & 0xff) == b2 && ((w
            >> 24) & 0xff) == b3 && ((w >> 32) & 0xff) == b4 && ((w >> 40) & 0xff) == b5 && ((w
            >> 48) & 0xff) == b6 && ((w >> 56) & 0xff) == b7) by (bit_vector)
            requires
                w == b0 | (b1 << 8) | (b2 << 16) | (b3 << 24) | (b4 << 32) | (b5 << 40) | (b6
                    << 48) | (b7 << 56),
                b0 < 256 && b1 < 256 && b2 < 256 && b3 < 256,
                b4 < 256 && b5 < 256 && b6 < 256 && b7 < 256;
        assert(le8(w) =~= Seq::new(8, |j: int| byte_at(b@, base + j)));
    }
    w
}

/// Reads limbs from little-endian bytes, truncating to 48 bytes and
/// zero-padding short input: the value is taken modulo `2 ^ 384`.
pub fn bigint_of_bytes(b: &Vec<u8>) -> (r: Limbs384)
    ensures
        bytes_of_limbs(r.limbs@) == pad48(b@),
        limbs_value(r.limbs@) == le_bytes_value(b@) % pow2(384),
{
    let w0 = limb_from_bytes(b, 0);
    let w1 = limb_from_bytes(b, 8);
    let w2 = limb_from_bytes(b, 16);
    let w3 = limb_from_bytes(b, 24);
    let w4 = limb_from_bytes(b, 32);
    let w5 = limb_from_bytes(b, 40);
    let r = Limbs384 { limbs: [w0, w1, w2, w3, w4, w5] };
    proof {
        let l = r.limbs@;
        assert(l.skip(1) =~= seq![w1, w2, w3, w4, w5]);
        assert(l.skip(1).skip(1) =~= seq![w2, w3, w4, w5]);
        assert(l.skip(1).skip(1).skip(1) =~= seq![w3, w4, w5]);
        assert(l.skip(1).skip(1).skip(1).skip(1) =~= seq![w4, w5]);
        assert(l.skip(1).skip(1).skip(1).skip(1).skip(1) =~= seq![w5]);
        assert(l.skip(1).skip(1).skip(1).skip(1).skip(1).skip(1) =~= Seq::<u64>::empty());
        reveal_with_fuel(bytes_of_limbs, 7);
        assert(bytes_of_limbs(l) =~= pad48(b@));
        lemma_bytes_of_limbs_value(l);
        lemma_pad48_value(b@);
    }
    r
}

/// Truncation or padding to 48 bytes takes the value modulo `2 ^ 384`.
proof fn lemma_pad48_value(b: Seq<u8>)
    ensures
        le_bytes_value(pad48(b)) == le_bytes_value(b) % pow2(384),
{
    lemma_pow2_pos(384);
    if b.len() <= 48 {
        let zeros = Seq::new((48 - b.len()) as nat, |i: int| 0u8);
        assert(pad48(b) =~= b + zeros);
        lemma_le_bytes_concat(b, zeros);
        lemma_zero_bytes_value(zeros);
        lemma_le_bytes_bound(b);
        assert(pow2(8 * b.len()) <= pow2(384)) by {
            if 8 * b.len() < 384 {
                lemma_pow2_strictly_increases(8 * b.len(), 384);
            }
        }
        let v = le_bytes_value(b);
        let p = pow2(8 * b.len());
        assert(pow2(8 * b.len()) * 0 == 0) by (nonlinear_arith);
        vstd::arithmetic::div_mod::lemma_small_mod(v, pow2(384));
    } else {
        assert(pad48(b) =~= b.take(48));
        assert(b =~= b.take(48) + b.skip(48));
        lemma_le_bytes_concat(b.take(48), b.skip(48));
        lemma_le_bytes_bound(b.take(48));
        assert(8 * b.take(48).len() == 384);
        assert(pow2(384) * le_bytes_value(b.skip(48)) == le_bytes_value(b.skip(48)) * pow2(384))
            by (nonlinear_arith);
        lemma_fundamental_div_mod_converse(
            le_bytes_value(b) as int,
            pow2(384) as int,
            le_bytes_value(b.skip(48)) as int,
            le_bytes_value(b.take(48)) as int,
        );
    }
}

/// A string of zero bytes denotes zero.
proof fn lemma_zero_bytes_value(b: Seq<u8>)
    requires
        forall|i: int| 0 <= i < b.len() ==> b[i] == 0,
    ensures
        le_bytes_value(b) == 0,
    decreases b.len(),
{
    if b.len() > 0 {
        lemma_zero_bytes_value(b.skip(1));
    }
}

/// Builds the limbs from six 64-bit words, least significant first.
pub fn bigint_of_data(words: &Vec<u64>) -> (r: Limbs384)
    requires
        words@.len() == 6,
    ensures
        r.limbs@ == words@,
{
    let r = Limbs384 {
        limbs: [words[0], words[1], words[2], words[3], words[4], words[5]],
    };
    proof {
        assert(r.limbs@ =~= words@);
    }
    r
}

/// Three-way comparison, encoded as the boundary expects: 255 for less,
/// 0 for equal, 1 for greater, comparing the 384-bit values.
pub fn bigint_compare(x: &Limbs384, y: &Limbs384) -> (r: u8)
    ensures
        (r == 255) <==> limbs_value(x.limbs@) < limbs_value(y.limbs@),
        (r == 0) <==> limbs_value(x.limbs@) == limbs_value(y.limbs@),
        (r == 1) <==> limbs_value(x.limbs@) > limbs_value(y.limbs@),
{
    let mut i: usize = 6;
    #[verifier::loop_isolation(false)]
    while i > 0
        invariant
            i <= 6,
            forall|j: int| i <= j < 6 ==> x.limbs@[j] == y.limbs@[j],
        decreases i,
    {
        i = i - 1;
        if x.limbs[i] < y.limbs[i] {
            proof {
                lemma_compare_at(x.limbs@, y.limbs@, i as int);
            }
            return 255;
        }
        if x.limbs[i] > y.limbs[i] {
            proof {
                lemma_compare_at(y.limbs@, x.limbs@, i as int);
            }
            return 1;
        }
    }
    proof {
        assert(x.limbs@ =~= y.limbs@);
    }
    0
}

/// Limbs equal above `i` and smaller at `i` give a smaller value.
proof fn lemma_compare_at(x: Seq<u64>, y: Seq<u64>, i: int)
    requires
        x.len() == 6,
        y.len() == 6,
        0 <= i < 6,
        forall|j: int| i < j < 6 ==> x[j] == y[j],
        x[i] < y[i],
    ensures
        limbs_value(x) < limbs_value(y),
{
    assert(x =~= x.take(i) + (seq![x[i]] + x.skip(i + 1)));
    assert(y =~= y.take(i) + (seq![y[i]] + y.skip(i + 1)));
    lemma_limbs_concat(x.take(i), seq![x[i]] + x.skip(i + 1));
    lemma_limbs_concat(y.take(i), seq![y[i]] + y.skip(i + 1));
    lemma_limbs_concat(seq![x[i]], x.skip(i + 1));
    lemma_limbs_concat(seq![y[i]], y.skip(i + 1));
    assert(x.skip(i + 1) =~= y.skip(i + 1));
    assert(limbs_value(seq![x[i]]) == x[i]) by {
        assert(seq![x[i]].skip(1) =~= Seq::<u64>::empty());
        assert(limbs_value(Seq::<u64>::empty()) == 0);
        assert(limbs_value(seq![x[i]]) == x[i] + 0x10000000000000000
            * limbs_value(seq![x[i]].skip(1)));
    }
    assert(limbs_value(seq![y[i]]) == y[i]) by {
        assert(seq![y[i]].skip(1) =~= Seq::<u64>::empty());
        assert(limbs_value(Seq::<u64>::empty()) == 0);
        assert(limbs_value(seq![y[i]]) == y[i] + 0x10000000000000000
            * limbs_value(seq![y[i]].skip(1)));
    }
    lemma_limbs_bound(x.take(i));
    lemma_limbs_bound(y.take(i));
    lemma_pow2_pos(64 * i as nat);
    lemma_pow2_pos(64);
    let p = pow2(64 * i as nat);
    let q = pow2(64 * 1);
    let tail = limbs_value(x.skip(i + 1));
    let tx = limbs_value(x.take(i));
    let ty = limbs_value(y.take(i));
    assert(limbs_value(x) == tx + p * (x[i] + q * tail));
    assert(limbs_value(y) == ty + p * (y[i] + q * tail));
    let xi = x[i];
    let yi = y[i];
    assert(p * (xi + q * tail) + p <= p * (yi + q * tail)) by (nonlinear_arith)
        requires xi < yi && p > 0 && q > 0 && tail >= 0;
}

/// Whether bit `i` of the 384-bit value is set.
pub fn bigint_test_bit(x: &Limbs384, i: usize) -> (r: bool)
    requires
        i < 384,
    ensures
        r == (limbs_value(x.limbs@) / pow2(i as nat) % 2 == 1),
{
    let w = i / 64;
    let t = i % 64;
    let limb = x.limbs[w];
    let r = ((limb >> (t as u64)) & 1) == 1;
    proof {
        lemma_test_bit_reads_the_value(x.limbs@, i as nat);
        vstd::bits::lemma_u64_shr_is_div(limb, t as u64);
        assert(((limb >> (t as u64)) & 1) == (limb >> (t as u64)) % 2) by (bit_vector);
    }
    r
}

/// Bit `i` of the value is bit `i % 64` of limb `i / 64`.
proof fn lemma_test_bit_reads_the_value(l: Seq<u64>, i: nat)
    requires
        l.len() == 6,
        i < 384,
    ensures
        limbs_value(l) / pow2(i) % 2 == (l[i as int / 64] as nat) / pow2(i % 64) % 2,
{
    let w = i / 64;
    let t = i % 64;
    lemma_fundamental_div_mod(i as int, 64);
    lemma_mod_bound(i as int, 64);
    assert(i == 64 * w + t);
    let a = l[w as int] as nat;
    let big = limbs_value(l.skip(w as int + 1));
    let p = pow2(64 * w);
    let pt = pow2(t);
    let tail = pow2((64 - t) as nat);
    lemma_pow2_pos(64 * w);
    lemma_pow2_pos(t);
    lemma_pow2_pos((64 - t) as nat);
    lemma_pow2_pos((63 - t) as nat);
    // split the value at limb w and peel that limb off
    assert(l =~= l.take(w as int) + l.skip(w as int));
    lemma_limbs_concat(l.take(w as int), l.skip(w as int));
    assert(l.skip(w as int) =~= seq![l[w as int]] + l.skip(w as int + 1));
    lemma_limbs_concat(seq![l[w as int]], l.skip(w as int + 1));
    assert(limbs_value(seq![l[w as int]]) == a) by {
        assert(seq![l[w as int]].skip(1) =~= Seq::<u64>::empty());
        assert(limbs_value(Seq::<u64>::empty()) == 0);
        assert(limbs_value(seq![l[w as int]]) == l[w as int] + 0x10000000000000000
            * limbs_value(seq![l[w as int]].skip(1)));
    }
    assert(pow2(64 * 1) == 0x10000000000000000) by {
        lemma2_to64_rest();
    }
    let lowpart = limbs_value(l.take(w as int));
    lemma_limbs_bound(l.take(w as int));
    assert(lowpart < p);
    let s = (a + 0x10000000000000000 * big) as nat;
    assert(limbs_value(l) == lowpart + p * s);
    // dividing by pow2(64 w) drops the lower limbs
    vstd::arithmetic::div_mod::lemma_div_multiples_vanish_fancy(
        s as int, lowpart as int, p as int);
    assert((p * s + lowpart) as int / (p as int) == s);
    // dividing by pow2(i) splits as two divisions
    vstd::arithmetic::div_mod::lemma_div_denominator(
        limbs_value(l) as int, p as int, pt as int);
    lemma_pow2_adds(64 * w, t);
    assert(limbs_value(l) / pow2(i) == s / pt) by {
        assert(p * pt == pow2(i));
        assert(limbs_value(l) as int / (p as int) == s);
    }
    // the next limbs contribute an even number to the quotient
    lemma_pow2_adds(t, (64 - t) as nat);
    assert(0x10000000000000000 * big == (tail * big) * pt) by (nonlinear_arith)
        requires 0x10000000000000000 == pt * tail;
    vstd::arithmetic::div_mod::lemma_hoist_over_denominator(
        a as int, (tail * big) as int, pt);
    assert(s / pt == a / pt + tail * big);
    assert(tail == 2 * pow2((63 - t) as nat)) by {
        lemma_pow2_adds(1, (63 - t) as nat);
        assert(pow2(1) == 2) by {
            vstd::arithmetic::power2::lemma2_to64();
        }
    }
    assert(tail * big == 2 * (pow2((63 - t) as nat) * big)) by (nonlinear_arith)
        requires tail == 2 * pow2((63 - t) as nat);
    vstd::arithmetic::div_mod::lemma_mod_multiples_vanish(
        (pow2((63 - t) as nat) * big) as int, (a / pt) as int, 2);
    assert((a / pt + tail * big) % 2 == a / pt % 2);
}

#[verifier::external_type_specification]
#[verifier::external_body]
pub struct ExBigUint(num_bigint::BigUint);

/// The integer a `BigUint` holds.
pub uninterp spec fn biguint_nat(x: num_bigint::BigUint) -> nat;

/// Relies on `num_bigint::BigUint::from_bytes_le`: the bytes are read as a
/// little-endian base-256 integer.
#[verifier::external_body]
fn biguint_from_bytes_le(b: &Vec<u8>) -> (r: num_bigint::BigUint)
    ensures
        biguint_nat(r) == le_bytes_value(b@),
{
    num_bigint::BigUint::from_bytes_le(b.as_slice())
}

/// Relies on `num_bigint::BigUint::to_bytes_le`: little-endian base-256
/// bytes of the value, minimal (a single zero byte for zero, otherwise no
/// trailing zero byte).
#[verifier::external_body]
fn biguint_to_bytes_le(x: &num_bigint::BigUint) -> (r: Vec<u8>)
    ensures
        le_bytes_value(r@) == biguint_nat(*x),
        r@.len() >= 1,
        r@.len() > 1 ==> r@[r@.len() - 1] != 0,
{
    x.to_bytes_le()
}

/// Relies on `BigUint` division (`Div` for `&BigUint`): the Euclidean
/// quotient.  The library panics on a zero divisor, so that is excluded.
#[verifier::external_body]
fn biguint_quotient(x: &num_bigint::BigUint, y: &num_bigint::BigUint) -> (r: num_bigint::BigUint)
    requires
        biguint_nat(*y) != 0,
    ensures
        biguint_nat(r) == biguint_nat(*x) / biguint_nat(*y),
{
    x / y
}

/// Value of an ASCII digit: `0-9`, then `a-z` and `A-Z` for 10 to 35;
/// anything else is marked out of range.
pub open spec fn digit_of(b: u8) -> nat {
    if 48 <= b <= 57 {
        (b - 48) as nat
    } else if 97 <= b <= 122 {
        (b - 87) as nat
    } else if 65 <= b <= 90 {
        (b - 55) as nat
    } else {
        99
    }
}

/// Every byte is a digit below the radix.
pub open spec fn all_plain_digits(s: Seq<u8>, radix: nat) -> bool {
    forall|i: int| 0 <= i < s.len() ==> digit_of(#[trigger] s[i]) < radix
}

/// The integer a big-endian digit string denotes in the given radix.
pub open spec fn radix_value(s: Seq<u8>, radix: nat) -> nat
    decreases s.len(),
{
    if s.len() == 0 {
        0
    } else {
        radix_value(s.drop_last(), radix) * radix + digit_of(s.last())
    }
}

/// Relies on `num_bigint::BigUint::parse_bytes`: for a nonempty string of
/// plain digits of the radix it returns the big-endian value those digits
/// denote (its fuller grammar with signs and separators is not relied on).
/// The library panics on a radix outside `2..=36`, so that is excluded.
#[verifier::external_body]
fn biguint_parse_bytes(buf: &Vec<u8>, radix: u32) -> (r: Option<num_bigint::BigUint>)
    requires
        2 <= radix <= 36,
    ensures
        buf@.len() > 0 && all_plain_digits(buf@, radix as nat) ==> match r {
            Option::Some(v) => biguint_nat(v) == radix_value(buf@, radix as nat),
            Option::None => false,
        },
{
    num_bigint::BigUint::parse_bytes(buf.as_slice(), radix)
}

/// The 384-bit quotient of two 384-bit integers.
pub fn bigint_div(x: &Limbs384, y: &Limbs384) -> (r: Limbs384)
    requires
        limbs_value(y.limbs@) != 0,
    ensures
        limbs_value(r.limbs@) == limbs_value(x.limbs@) / limbs_value(y.limbs@),
{
    let bx = bigint_to_bytes(x);
    let by = bigint_to_bytes(y);
    let gx = biguint_from_bytes_le(&bx);
    let gy = biguint_from_bytes_le(&by);
    let q = biguint_quotient(&gx, &gy);
    let qb = biguint_to_bytes_le(&q);
    let r = bigint_of_bytes(&qb);
    proof {
        let vx = limbs_value(x.limbs@);
        let vy = limbs_value(y.limbs@);
        lemma_limbs_bound(x.limbs@);
        assert(vx < pow2(384));
        assert(vx / vy <= vx) by (nonlinear_arith)
            requires vy >= 1 && vx >= 0;
        vstd::arithmetic::div_mod::lemma_small_mod(vx / vy, pow2(384));
    }
    r
}

/// Parses a numeral in the given radix into a 384-bit integer, dropping
/// any bits beyond the width as the limb conversion does.  For a nonempty
/// string of plain digits of the radix the result is owed and exact.
pub fn bigint_of_numeral(s: &Vec<u8>, radix: u32) -> (r: Option<Limbs384>)
    requires
        2 <= radix <= 36,
    ensures
        s@.len() > 0 && all_plain_digits(s@, radix as nat) ==> match r {
            Option::Some(l) => limbs_value(l.limbs@) == radix_value(s@, radix as nat) % pow2(384),
            Option::None => false,
        },
{
    match biguint_parse_bytes(s, radix) {
        Option::Some(g) => {
            let gb = biguint_to_bytes_le(&g);
            Option::Some(bigint_of_bytes(&gb))
        },
        Option::None => Option::None,
    }
}

/// Parses a decimal numeral into a 384-bit integer.
pub fn bigint_of_decimal_string(s: &Vec<u8>) -> (r: Option<Limbs384>)
    ensures
        s@.len() > 0 && all_plain_digits(s@, 10) ==> match r {
            Option::Some(l) => limbs_value(l.limbs@) == radix_value(s@, 10) % pow2(384),
            Option::None => false,
        },
{
    bigint_of_numeral(s, 10)
}

/// The number of limbs of the canonical encoding.
pub fn bigint_num_limbs() -> (r: i32)
    ensures
        r == 6,
{
    6
}

/// The number of bytes per limb of the canonical encoding.
pub fn bigint_bytes_per_limb() -> (r: i32)
    ensures
        r == 8,
{
    8
}

} // verus!
