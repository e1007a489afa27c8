//! Eight pixels at a time, on `wide::u32x8`.
//!
//! The vector type is opaque here; [`lanes`] names the eight values it holds, and each function of
//! this module makes one call of `wide` and says what it does to every lane.
use crate::pixel::{self, BlendMode};
use vstd::prelude::*;

verus! {

/// Lane count of every vectorised pass.
pub const LANES: usize = 8;

/// The vector of eight 32-bit lanes of `wide`.
#[verifier::external_type_specification]
#[verifier::external_body]
pub struct ExU32x8(wide::u32x8);

/// The eight lanes of a vector, first lane first.
pub uninterp spec fn lanes(v: wide::u32x8) -> Seq<u32>;

/// `wide::u32x8::splat`: every lane holds `x`.
#[verifier::external_body]
pub(crate) fn splat(x: u32) -> (r: wide::u32x8)
    ensures
        lanes(r) == Seq::new(8, |i: int| x),
{
    wide::u32x8::splat(x)
}

/// `wide::u32x8::new`: lane `i` is element `i` of the array.
#[verifier::external_body]
pub(crate) fn from_array(a: [u32; 8]) -> (r: wide::u32x8)
    ensures
        lanes(r) == a@,
{
    wide::u32x8::new(a)
}

/// `wide::u32x8::to_array`: element `i` of the array is lane `i`.
#[verifier::external_body]
pub(crate) fn to_array(v: wide::u32x8) -> (a: [u32; 8])
    ensures
        a@ == lanes(v),
{
    v.to_array()
}

/// `+` of `wide`: adds lane by lane, keeping the low 32 bits.
#[verifier::external_body]
pub(crate) fn lanes_add(a: wide::u32x8, b: wide::u32x8) -> (r: wide::u32x8)
    ensures
        lanes(r) == Seq::new(8, |i: int| (lanes(a)[i] + lanes(b)[i]) as u32),
{
    a + b
}

/// `-` of `wide`: subtracts lane by lane, keeping the low 32 bits.
#[verifier::external_body]
pub(crate) fn lanes_sub(a: wide::u32x8, b: wide::u32x8) -> (r: wide::u32x8)
    ensures
        lanes(r) == Seq::new(8, |i: int| (lanes(a)[i] - lanes(b)[i]) as u32),
{
    a - b
}

/// `*` of `wide`: multiplies lane by lane, keeping the low 32 bits.
#[verifier::external_body]
pub(crate) fn lanes_mul(a: wide::u32x8, b: wide::u32x8) -> (r: wide::u32x8)
    ensures
        lanes(r) == Seq::new(8, |i: int| (lanes(a)[i] * lanes(b)[i]) as u32),
{
    a * b
}

/// `&` of `wide`, lane by lane.
#[verifier::external_body]
pub(crate) fn lanes_and(a: wide::u32x8, b: wide::u32x8) -> (r: wide::u32x8)
    ensures
        lanes(r) == Seq::new(8, |i: int| lanes(a)[i] & lanes(b)[i]),
{
    a & b
}

/// `|` of `wide`, lane by lane.
#[verifier::external_body]
pub(crate) fn lanes_or(a: wide::u32x8, b: wide::u32x8) -> (r: wide::u32x8)
    ensures
        lanes(r) == Seq::new(8, |i: int| lanes(a)[i] | lanes(b)[i]),
{
    a | b
}

/// `^` of `wide`, lane by lane.
#[verifier::external_body]
pub(crate) fn lanes_xor(a: wide::u32x8, b: wide::u32x8) -> (r: wide::u32x8)
    ensures
        lanes(r) == Seq::new(8, |i: int| lanes(a)[i] ^ lanes(b)[i]),
{
    a ^ b
}

/// `<<` of `wide` by one scalar count: every lane shifts left by it, zeros come in.
#[verifier::external_body]
pub(crate) fn lanes_shl(a: wide::u32x8, n: u32) -> (r: wide::u32x8)
    requires
        n < 32,
    ensures
        lanes(r) == Seq::new(8, |i: int| lanes(a)[i] << n),
{
    a << n
}

/// `>>` of `wide` by one scalar count: every lane shifts right by it, zeros come in.
#[verifier::external_body]
pub(crate) fn lanes_shr(a: wide::u32x8, n: u32) -> (r: wide::u32x8)
    requires
        n < 32,
    ensures
        lanes(r) == Seq::new(8, |i: int| lanes(a)[i] >> n),
{
    a >> n
}

/// `wide::u32x8::cmp_eq`: all ones in the lanes that agree, zero in the others.
#[verifier::external_body]
pub(crate) fn lanes_equal(a: wide::u32x8, b: wide::u32x8) -> (r: wide::u32x8)
    ensures
        lanes(r) == Seq::new(
            8,
            |i: int|
                if lanes(a)[i] == lanes(b)[i] {
                    0xFFFF_FFFFu32
                } else {
                    0u32
                },
        ),
{
    a.cmp_eq(b)
}

/// A bitwise blend through an all-ones or all-zeros mask picks one side.
proof fn lemma_mask_blend(m: u32, x: u32, y: u32)
    requires
        m == 0 || m == 0xFFFF_FFFF,
    ensures
        ((m & x) | ((m ^ 0xFFFF_FFFF) & y)) == (if m == 0 {
            y
        } else {
            x
        }),
{
    assert(((0u32 & x) | ((0u32 ^ 0xFFFF_FFFFu32) & y)) == y && ((0xFFFF_FFFFu32 & x) | ((
    0xFFFF_FFFFu32 ^ 0xFFFF_FFFFu32) & y)) == x) by (bit_vector);
}

/// The normal-mode blend of one lane, in the order in which the vector code computes it.
proof fn lemma_lane(d: u32, s: u32)
    ensures
        ({
            let da: u32 = (d >> 24) & 0xFF;
            let sa: u32 = (s >> 24) & 0xFF;
            let c: u32 = (((256 - da) as u32 * sa) as u32) >> 8;
            let nr: u32 = (((d >> 16) & 0xFF) + ((((s >> 16) & 0xFF) * c) as u32 >> 8)) as u32;
            let ng: u32 = (((d >> 8) & 0xFF) + ((((s >> 8) & 0xFF) * c) as u32 >> 8)) as u32;
            let nb: u32 = ((d & 0xFF) + (((s & 0xFF) * c) as u32 >> 8)) as u32;
            let na: u32 = (da + c) as u32;
            let res: u32 = (na << 24) | (nr << 16) | (ng << 8) | nb;
            (if da == 0xFF {
                d
            } else {
                res
            }) == pixel::under_px(d, s, BlendMode::Normal)
        }),
{
    pixel::lemma_channels(d);
    pixel::lemma_channels(s);
    assert(((d >> 24) & 0xFF) == (d >> 24) && ((s >> 24) & 0xFF) == (s >> 24)) by (bit_vector);
    let da: u32 = d >> 24;
    let sa: u32 = s >> 24;
    pixel::lemma_consumed(da as int, sa as int);
    let prod: u32 = ((256 - da) * sa) as u32;
    pixel::lemma_shr8(prod);
    let c: u32 = prod >> 8;
    pixel::lemma_deposit(pixel::red(d), pixel::red(s), c as int);
    pixel::lemma_deposit(pixel::green(d), pixel::green(s), c as int);
    pixel::lemma_deposit(pixel::blue(d), pixel::blue(s), c as int);
    pixel::lemma_shr8((pixel::red(s) * c) as u32);
    pixel::lemma_shr8((pixel::green(s) * c) as u32);
    pixel::lemma_shr8((pixel::blue(s) * c) as u32);
}

/// The normal-mode blend on eight pixels at once; every lane gives what the scalar blend gives.
pub fn under_x8_normal(dst: wide::u32x8, src: wide::u32x8) -> (out: wide::u32x8)
    ensures
        lanes(out) == Seq::new(
            8,
            |i: int| pixel::under_px(lanes(dst)[i], lanes(src)[i], BlendMode::Normal),
        ),
{
    let mask_ff = splat(0xFF);
    let const_256 = splat(256);
    let all_ones = splat(0xFFFF_FFFF);

    let dst_a = lanes_and(lanes_shr(dst, 24), mask_ff);
    let dst_r = lanes_and(lanes_shr(dst, 16), mask_ff);
    let dst_g = lanes_and(lanes_shr(dst, 8), mask_ff);
    let dst_b = lanes_and(dst, mask_ff);
    let src_a = lanes_and(lanes_shr(src, 24), mask_ff);
    let src_r = lanes_and(lanes_shr(src, 16), mask_ff);
    let src_g = lanes_and(lanes_shr(src, 8), mask_ff);
    let src_b = lanes_and(src, mask_ff);

    let taken = lanes_shr(lanes_mul(lanes_sub(const_256, dst_a), src_a), 8);
    let nr = lanes_add(dst_r, lanes_shr(lanes_mul(src_r, taken), 8));
    let ng = lanes_add(dst_g, lanes_shr(lanes_mul(src_g, taken), 8));
    let nb = lanes_add(dst_b, lanes_shr(lanes_mul(src_b, taken), 8));
    let na = lanes_add(dst_a, taken);
    let result = lanes_or(
        lanes_or(lanes_or(lanes_shl(na, 24), lanes_shl(nr, 16)), lanes_shl(ng, 8)),
        nb,
    );

    let opaque_mask = lanes_equal(dst_a, mask_ff);
    let not_mask = lanes_xor(opaque_mask, all_ones);
    let out = lanes_or(lanes_and(opaque_mask, dst), lanes_and(not_mask, result));
    proof {
        assert forall|i: int| 0 <= i < 8 implies #[trigger] lanes(out)[i] == pixel::under_px(
            lanes(dst)[i],
            lanes(src)[i],
            BlendMode::Normal,
        ) by {
            lemma_lane(lanes(dst)[i], lanes(src)[i]);
            lemma_mask_blend(lanes(opaque_mask)[i], lanes(dst)[i], lanes(result)[i]);
        }
        assert(lanes(out) =~= Seq::new(
            8,
            |i: int| pixel::under_px(lanes(dst)[i], lanes(src)[i], BlendMode::Normal),
        ));
    }
    out
}

} // verus!
