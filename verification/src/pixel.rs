//! Pixel format and the blend operation.
//!
//! A pixel is a `u32` laid out as `0xAARRGGBB`. The top byte is opacity (`0` transparent, `255`
//! opaque); the RGB bytes hold darkness (`0` white, `255` black). The empty pixel is `0`. Layers are
//! composed front to back with [`Blend::under`]: both halves of the pixel only ever grow.
pub use crate::simd::under_x8_normal;
use vstd::prelude::*;

verus! {

/// A packed pixel, `0xAARRGGBB`, opacity and darkness.
pub type Argb8 = u32;

/// The opacity byte of a pixel.
pub open spec fn alpha(p: u32) -> int {
    (p >> 24) as int
}

/// The red darkness byte of a pixel.
pub open spec fn red(p: u32) -> int {
    ((p >> 16) & 0xFF) as int
}

/// The green darkness byte of a pixel.
pub open spec fn green(p: u32) -> int {
    ((p >> 8) & 0xFF) as int
}

/// The blue darkness byte of a pixel.
pub open spec fn blue(p: u32) -> int {
    (p & 0xFF) as int
}

/// The pixel with the given channels. Channels above 255 spill into the byte on their left.
pub open spec fn argb(a: int, r: int, g: int, b: int) -> u32 {
    ((a as u32) << 24) | ((r as u32) << 16) | ((g as u32) << 8) | (b as u32)
}

/// Every darkness byte of `p` is at most its opacity byte.
pub open spec fn dark_within_alpha(p: u32) -> bool {
    red(p) <= alpha(p) && green(p) <= alpha(p) && blue(p) <= alpha(p)
}

/// The four channels of every pixel are bytes.
pub proof fn lemma_channels(p: u32)
    ensures
        0 <= alpha(p) <= 255,
        0 <= red(p) <= 255,
        0 <= green(p) <= 255,
        0 <= blue(p) <= 255,
        p >= 0xFF00_0000 <==> alpha(p) == 255,
        argb(alpha(p), red(p), green(p), blue(p)) == p,
{
    assert((p >> 24) <= 255 && ((p >> 16) & 0xFF) <= 255 && ((p >> 8) & 0xFF) <= 255 && (p & 0xFF)
        <= 255 && (p >= 0xFF00_0000u32 <==> (p >> 24) == 255) && (((p >> 24) << 24) | (((p >> 16)
        & 0xFF) << 16) | (((p >> 8) & 0xFF) << 8) | (p & 0xFF)) == p) by (bit_vector);
}

/// Packing four bytes and reading the channels back gives the same bytes.
pub proof fn lemma_argb(a: int, r: int, g: int, b: int)
    requires
        0 <= a <= 255,
        0 <= r <= 255,
        0 <= g <= 255,
        0 <= b <= 255,
    ensures
        alpha(argb(a, r, g, b)) == a,
        red(argb(a, r, g, b)) == r,
        green(argb(a, r, g, b)) == g,
        blue(argb(a, r, g, b)) == b,
{
    let x: u32 = a as u32;
    let y: u32 = r as u32;
    let z: u32 = g as u32;
    let w: u32 = b as u32;
    let p: u32 = (x << 24) | (y << 16) | (z << 8) | w;
    assert((p >> 24) == x && ((p >> 16) & 0xFF) == y && ((p >> 8) & 0xFF) == z && (p & 0xFF) == w)
        by (bit_vector)
        requires
            p == (x << 24) | (y << 16) | (z << 8) | w,
            x <= 255,
            y <= 255,
            z <= 255,
            w <= 255,
    ;
}

/// The channels are the four bytes of the number, opacity first, then red, green and blue.
pub proof fn law_channels_are_bytes_in_order(p: u32)
    ensures
        p == alpha(p) * 0x100_0000 + red(p) * 0x1_0000 + green(p) * 0x100 + blue(p),
        0 <= alpha(p) < 0x100,
        0 <= red(p) < 0x100,
        0 <= green(p) < 0x100,
        0 <= blue(p) < 0x100,
{
    lemma_channels(p);
    assert(p == (p >> 24) * 0x100_0000 + ((p >> 16) & 0xFF) * 0x1_0000 + ((p >> 8) & 0xFF) * 0x100
        + (p & 0xFF)) by (bit_vector);
}

/// A right shift by eight is division by 256.
pub proof fn lemma_shr8(x: u32)
    ensures
        (x >> 8) as int == x as int / 256,
{
    assert((x >> 8) == x / 256) by (bit_vector);
}

/// How the darkness of `bottom` is read before it is laid under `top`. The names describe the
/// effect on the visible colour; the formulas are over darkness `t` (top) and `b` (bottom).
#[derive(Clone, Copy, Debug, PartialEq, Eq, Structural)]
pub enum BlendMode {
    /// Bottom passes through: `b`.
    Normal,
    /// Visible multiply: `255 - ((255 - t) * (255 - b) >> 8)`.
    Multiply,
    /// Visible screen: `t * b >> 8`.
    Screen,
    /// Saturating visible add: `t + b - 255`, at least 0.
    Add,
    /// Saturating visible subtract: `255 - (b - t)`, at most 255.
    Subtract,
    /// Multiply where bottom is dark (`b > 128`), screen where it is bright.
    Overlay,
    /// Visible minimum: the larger darkness.
    Darken,
    /// Visible maximum: the smaller darkness.
    Lighten,
}

/// The darkness that `bottom` brings in one channel, for darkness `t` above and `b` below.
pub open spec fn kernel(mode: BlendMode, t: int, b: int) -> int {
    match mode {
        BlendMode::Normal => b,
        BlendMode::Multiply => 255 - ((255 - t) * (255 - b)) / 256,
        BlendMode::Screen => (t * b) / 256,
        BlendMode::Add => if t + b > 255 {
            t + b - 255
        } else {
            0
        },
        BlendMode::Subtract => if b > t {
            255 - (b - t)
        } else {
            255
        },
        BlendMode::Overlay => if b > 0x80 {
            255 - (2 * ((255 - t) * (255 - b))) / 256
        } else {
            (2 * (t * b)) / 256
        },
        BlendMode::Darken => if t > b {
            t
        } else {
            b
        },
        BlendMode::Lighten => if t < b {
            t
        } else {
            b
        },
    }
}

/// How much of the opacity budget left by `top_a` a layer of opacity `bot_a` takes.
pub open spec fn consumed(top_a: int, bot_a: int) -> int {
    ((256 - top_a) * bot_a) / 256
}

/// Darkness `t` after a layer whose darkness reads as `m` has taken `c` of the budget.
pub open spec fn deposit(t: int, m: int, c: int) -> int {
    t + (m * c) / 256
}

/// `bottom` laid under `top`: an opaque top hides it, otherwise it fills what is left.
pub open spec fn under_px(top: u32, bottom: u32, mode: BlendMode) -> u32 {
    if alpha(top) == 255 {
        top
    } else {
        let c = consumed(alpha(top), alpha(bottom));
        argb(
            alpha(top) + c,
            deposit(red(top), kernel(mode, red(top), red(bottom)), c),
            deposit(green(top), kernel(mode, green(top), green(bottom)), c),
            deposit(blue(top), kernel(mode, blue(top), blue(bottom)), c),
        )
    }
}

/// The layers of `layers`, first one topmost, laid under each other starting from `top`.
pub open spec fn under_all(top: u32, layers: Seq<u32>, mode: BlendMode) -> u32
    decreases layers.len(),
{
    if layers.len() == 0 {
        top
    } else {
        under_px(under_all(top, layers.drop_last(), mode), layers.last(), mode)
    }
}

/// A product of two bounded factors, divided by 256, is bounded by the first factor.
pub proof fn lemma_scaled(x: int, y: int, bound: int)
    requires
        0 <= x <= bound,
        0 <= y <= 256,
    ensures
        0 <= x * y <= 256 * bound,
        0 <= (x * y) / 256 <= x,
{
    assert(0 <= x * y <= 256 * x) by (nonlinear_arith)
        requires
            0 <= x,
            0 <= y <= 256,
    ;
}

/// The opacity budget: what a layer takes never exceeds what is left.
pub proof fn lemma_consumed(top_a: int, bot_a: int)
    requires
        0 <= top_a <= 255,
        0 <= bot_a <= 255,
    ensures
        0 <= (256 - top_a) * bot_a <= 65280,
        0 <= consumed(top_a, bot_a) <= 255 - top_a,
        bot_a == 0 ==> consumed(top_a, bot_a) == 0,
        bot_a == 255 && top_a < 255 ==> consumed(top_a, bot_a) == 255 - top_a,
{
    let k = 256 - top_a;
    assert(0 <= k * bot_a <= k * 255) by (nonlinear_arith)
        requires
            1 <= k,
            0 <= bot_a <= 255,
    ;
    assert(bot_a == 0 ==> k * bot_a == 0) by (nonlinear_arith);
}

/// Every kernel maps bytes to a byte.
pub proof fn lemma_kernel(mode: BlendMode, t: int, b: int)
    requires
        0 <= t <= 255,
        0 <= b <= 255,
    ensures
        0 <= kernel(mode, t, b) <= 255,
        0 <= t * b <= 65025,
        0 <= (255 - t) * (255 - b) <= 65025,
{
    assert(0 <= t * b <= 255 * 255) by (nonlinear_arith)
        requires
            0 <= t <= 255,
            0 <= b <= 255,
    ;
    assert(0 <= (255 - t) * (255 - b) <= 255 * 255) by (nonlinear_arith)
        requires
            0 <= t <= 255,
            0 <= b <= 255,
    ;
    if b > 0x80 {
        assert((255 - t) * (255 - b) <= 255 * 126) by (nonlinear_arith)
            requires
                0 <= t <= 255,
                128 < b <= 255,
        ;
    } else {
        assert(t * b <= 255 * 128) by (nonlinear_arith)
            requires
                0 <= t <= 255,
                0 <= b <= 128,
        ;
    }
}

/// Opacity never overflows a byte and never shrinks, and a pixel whose darkness is within its
/// opacity keeps that property under any layer, in any mode.
pub proof fn law_under_stays_in_range(top: u32, bottom: u32, mode: BlendMode)
    requires
        dark_within_alpha(top),
    ensures
        dark_within_alpha(under_px(top, bottom, mode)),
        alpha(top) <= alpha(under_px(top, bottom, mode)) <= 255,
        alpha(top) < 255 ==> alpha(under_px(top, bottom, mode)) == alpha(top) + consumed(
            alpha(top),
            alpha(bottom),
        ),
        red(top) <= red(under_px(top, bottom, mode)),
        green(top) <= green(under_px(top, bottom, mode)),
        blue(top) <= blue(under_px(top, bottom, mode)),
{
    lemma_channels(top);
    lemma_channels(bottom);
    if alpha(top) < 255 {
        let c = consumed(alpha(top), alpha(bottom));
        lemma_consumed(alpha(top), alpha(bottom));
        lemma_kernel(mode, red(top), red(bottom));
        lemma_kernel(mode, green(top), green(bottom));
        lemma_kernel(mode, blue(top), blue(bottom));
        lemma_deposit(red(top), kernel(mode, red(top), red(bottom)), c);
        lemma_deposit(green(top), kernel(mode, green(top), green(bottom)), c);
        lemma_deposit(blue(top), kernel(mode, blue(top), blue(bottom)), c);
        lemma_argb(
            alpha(top) + c,
            deposit(red(top), kernel(mode, red(top), red(bottom)), c),
            deposit(green(top), kernel(mode, green(top), green(bottom)), c),
            deposit(blue(top), kernel(mode, blue(top), blue(bottom)), c),
        );
    }
}

/// A deposit is at least what was there and grows by at most the budget taken.
pub proof fn lemma_deposit(t: int, m: int, c: int)
    requires
        0 <= t <= 255,
        0 <= m <= 255,
        0 <= c <= 255,
    ensures
        0 <= m * c <= 65025,
        t <= deposit(t, m, c) <= t + c,
        c == 0 ==> deposit(t, m, c) == t,
{
    assert(0 <= m * c <= 255 * c) by (nonlinear_arith)
        requires
            0 <= m <= 255,
            0 <= c,
    ;
}

/// Starting from the empty pixel, any chain of layers keeps darkness within opacity, and with it
/// every channel within a byte.
pub proof fn law_under_chain_stays_in_range(layers: Seq<u32>, mode: BlendMode)
    ensures
        dark_within_alpha(under_all(0, layers, mode)),
    decreases layers.len(),
{
    if layers.len() == 0 {
        assert((0u32 >> 24) == 0 && ((0u32 >> 16) & 0xFF) == 0 && ((0u32 >> 8) & 0xFF) == 0 && (0u32
            & 0xFF) == 0) by (bit_vector);
    } else {
        law_under_chain_stays_in_range(layers.drop_last(), mode);
        law_under_stays_in_range(under_all(0, layers.drop_last(), mode), layers.last(), mode);
    }
}

/// Once a pixel is opaque, no layer below changes it, however many there are.
pub proof fn law_opaque_hides_everything_below(top: u32, layers: Seq<u32>, mode: BlendMode)
    requires
        alpha(top) == 255,
    ensures
        under_all(top, layers, mode) == top,
    decreases layers.len(),
{
    if layers.len() > 0 {
        law_opaque_hides_everything_below(top, layers.drop_last(), mode);
    }
}

/// A fully transparent layer leaves the pixel above it unchanged.
pub proof fn law_transparent_layer_is_neutral(top: u32, bottom: u32, mode: BlendMode)
    requires
        alpha(bottom) == 0,
    ensures
        under_px(top, bottom, mode) == top,
{
    lemma_channels(top);
    lemma_channels(bottom);
    if alpha(top) < 255 {
        lemma_consumed(alpha(top), alpha(bottom));
        lemma_kernel(mode, red(top), red(bottom));
        lemma_kernel(mode, green(top), green(bottom));
        lemma_kernel(mode, blue(top), blue(bottom));
        lemma_deposit(red(top), kernel(mode, red(top), red(bottom)), 0);
        lemma_deposit(green(top), kernel(mode, green(top), green(bottom)), 0);
        lemma_deposit(blue(top), kernel(mode, blue(top), blue(bottom)), 0);
    }
}

/// An opaque layer always makes the pixel opaque.
pub proof fn law_opaque_layer_saturates(top: u32, bottom: u32, mode: BlendMode)
    requires
        dark_within_alpha(top),
        alpha(bottom) == 255,
    ensures
        alpha(under_px(top, bottom, mode)) == 255,
{
    lemma_channels(top);
    law_under_stays_in_range(top, bottom, mode);
    lemma_consumed(alpha(top), alpha(bottom));
}

/// Multiply, in visible space, is the product of both channels in parts of 256. Either may be the one
/// above; white leaves the other channel up to one step, black gives black, and nothing gets brighter
/// than either.
pub proof fn law_multiply_is_the_visible_product(t: int, b: int)
    requires
        0 <= t <= 255,
        0 <= b <= 255,
    ensures
        ({
            let seen = 255 - kernel(BlendMode::Multiply, t, b);
            &&& 256 * seen <= (255 - t) * (255 - b) < 256 * seen + 256
            &&& seen == 255 - kernel(BlendMode::Multiply, b, t)
            &&& t == 0 ==> (255 - b) - 1 <= seen <= 255 - b
            &&& b == 0 ==> (255 - t) - 1 <= seen <= 255 - t
            &&& t == 255 || b == 255 ==> seen == 0
            &&& seen <= 255 - t
            &&& seen <= 255 - b
        }),
{
    lemma_kernel(BlendMode::Multiply, t, b);
    assert((255 - t) * (255 - b) == (255 - b) * (255 - t)) by (nonlinear_arith);
    assert((255 - t) * (255 - b) <= 255 * (255 - t) && (255 - t) * (255 - b) <= 255 * (255 - b))
        by (nonlinear_arith)
        requires
            0 <= t <= 255,
            0 <= b <= 255,
    ;
    assert(t == 255 || b == 255 ==> (255 - t) * (255 - b) == 0) by (nonlinear_arith);
}

/// Screen is the product of both darknesses in parts of 256: the inverse of [`BlendMode::Multiply`] in
/// visible space. Either may be the one above; black leaves the other channel up to one step, white
/// gives white, and nothing gets darker than either.
pub proof fn law_screen_is_the_product_of_darkness(t: int, b: int)
    requires
        0 <= t <= 255,
        0 <= b <= 255,
    ensures
        ({
            let k = kernel(BlendMode::Screen, t, b);
            &&& 256 * k <= t * b < 256 * k + 256
            &&& k == kernel(BlendMode::Screen, b, t)
            &&& k == 255 - kernel(BlendMode::Multiply, 255 - t, 255 - b)
            &&& t == 255 ==> b - 1 <= k <= b
            &&& b == 255 ==> t - 1 <= k <= t
            &&& t == 0 || b == 0 ==> k == 0
            &&& k <= t
            &&& k <= b
        }),
{
    lemma_kernel(BlendMode::Screen, t, b);
    assert(t * b == b * t) by (nonlinear_arith);
    assert(t * b <= 255 * t && t * b <= 255 * b) by (nonlinear_arith)
        requires
            0 <= t <= 255,
            0 <= b <= 255,
    ;
    assert(t == 0 || b == 0 ==> t * b == 0) by (nonlinear_arith);
}

/// Normal shows the channel below; Add sums the visible channels up to white, Subtract takes the
/// visible channel below from the one above down to black; Darken and Lighten show the darker and the
/// brighter of the two.
pub proof fn law_plain_modes_in_visible_space(t: int, b: int)
    requires
        0 <= t <= 255,
        0 <= b <= 255,
    ensures
        ({
            let above = 255 - t;
            let below = 255 - b;
            &&& 255 - kernel(BlendMode::Normal, t, b) == below
            &&& 255 - kernel(BlendMode::Add, t, b) == vstd::math::min(above + below, 255)
            &&& 255 - kernel(BlendMode::Subtract, t, b) == vstd::math::max(above - below, 0)
            &&& 255 - kernel(BlendMode::Darken, t, b) == vstd::math::min(above, below)
            &&& 255 - kernel(BlendMode::Lighten, t, b) == vstd::math::max(above, below)
        }),
{
}

/// Overlay multiplies where the channel below is dark and screens where it is bright, at twice the
/// strength: a darker channel above never brightens the result, and neither does a darker one below
/// on the same side of the middle.
pub proof fn law_overlay_doubles_the_contrast(t: int, b: int)
    requires
        0 <= t <= 255,
        0 <= b <= 255,
    ensures
        ({
            let k = kernel(BlendMode::Overlay, t, b);
            &&& b > 128 ==> 256 * (255 - k) <= 2 * ((255 - t) * (255 - b)) < 256 * (255 - k) + 256
            &&& b <= 128 ==> 256 * k <= 2 * (t * b) < 256 * k + 256
            &&& forall|u: int|
                t <= u <= 255 ==> k <= #[trigger] kernel(BlendMode::Overlay, u, b)
            &&& forall|c: int|
                b <= c <= 255 && (c <= 128 || b > 128) ==> k <= #[trigger] kernel(
                    BlendMode::Overlay,
                    t,
                    c,
                )
        }),
{
    lemma_kernel(BlendMode::Overlay, t, b);
    let k = kernel(BlendMode::Overlay, t, b);
    assert forall|u: int| t <= u <= 255 implies k <= #[trigger] kernel(
        BlendMode::Overlay,
        u,
        b,
    ) by {
        assert(t * b <= u * b && (255 - u) * (255 - b) <= (255 - t) * (255 - b))
            by (nonlinear_arith)
            requires
                t <= u,
                0 <= b <= 255,
        ;
    }
    assert forall|c: int| b <= c <= 255 && (c <= 128 || b > 128) implies k <= #[trigger] kernel(
        BlendMode::Overlay,
        t,
        c,
    ) by {
        assert(t * b <= t * c && (255 - t) * (255 - c) <= (255 - t) * (255 - b))
            by (nonlinear_arith)
            requires
                b <= c,
                0 <= t <= 255,
        ;
    }
}

/// A layer takes its opacity's share of what is left above it, and each of its channels darkens by the
/// same share of what the layer brings, both in parts of 256 with the rest dropped.
pub proof fn law_layer_takes_its_share(top: u32, bottom: u32, mode: BlendMode)
    requires
        dark_within_alpha(top),
        alpha(top) < 255,
    ensures
        ({
            let q = under_px(top, bottom, mode);
            let taken = alpha(q) - alpha(top);
            let r = kernel(mode, red(top), red(bottom)) * taken;
            let g = kernel(mode, green(top), green(bottom)) * taken;
            let b = kernel(mode, blue(top), blue(bottom)) * taken;
            &&& 256 * taken <= (256 - alpha(top)) * alpha(bottom) < 256 * taken + 256
            &&& 256 * (red(q) - red(top)) <= r < 256 * (red(q) - red(top)) + 256
            &&& 256 * (green(q) - green(top)) <= g < 256 * (green(q) - green(top)) + 256
            &&& 256 * (blue(q) - blue(top)) <= b < 256 * (blue(q) - blue(top)) + 256
        }),
{
    lemma_channels(top);
    lemma_channels(bottom);
    let c = consumed(alpha(top), alpha(bottom));
    lemma_consumed(alpha(top), alpha(bottom));
    lemma_kernel(mode, red(top), red(bottom));
    lemma_kernel(mode, green(top), green(bottom));
    lemma_kernel(mode, blue(top), blue(bottom));
    lemma_deposit(red(top), kernel(mode, red(top), red(bottom)), c);
    lemma_deposit(green(top), kernel(mode, green(top), green(bottom)), c);
    lemma_deposit(blue(top), kernel(mode, blue(top), blue(bottom)), c);
    lemma_argb(
        alpha(top) + c,
        deposit(red(top), kernel(mode, red(top), red(bottom)), c),
        deposit(green(top), kernel(mode, green(top), green(bottom)), c),
        deposit(blue(top), kernel(mode, blue(top), blue(bottom)), c),
    );
}

/// The opacity byte.
pub fn alpha_of(p: u32) -> (a: u32)
    ensures
        a as int == alpha(p),
        a <= 255,
{
    proof {
        lemma_channels(p);
    }
    p >> 24
}

/// The three darkness bytes: red, green, blue.
pub fn rgb_of(p: u32) -> (c: (u32, u32, u32))
    ensures
        c.0 as int == red(p),
        c.1 as int == green(p),
        c.2 as int == blue(p),
        c.0 <= 255,
        c.1 <= 255,
        c.2 <= 255,
{
    proof {
        lemma_channels(p);
    }
    ((p >> 16) & 0xFF, (p >> 8) & 0xFF, p & 0xFF)
}

/// Packs four channels.
pub fn assemble(a: u32, r: u32, g: u32, b: u32) -> (p: u32)
    ensures
        p == argb(a as int, r as int, g as int, b as int),
{
    (a << 24) | (r << 16) | (g << 8) | b
}

/// `p` with its opacity byte replaced by `a`.
pub fn with_alpha(p: u32, a: u32) -> (q: u32)
    ensures
        q == argb(a as int, red(p), green(p), blue(p)),
{
    assert(((p & 0x00FF_FFFF) | (a << 24)) == ((a << 24) | (((p >> 16) & 0xFF) << 16) | (((p >> 8)
        & 0xFF) << 8) | (p & 0xFF))) by (bit_vector);
    (p & 0x00FF_FFFF) | (a << 24)
}

/// `x * y >> 8`, for factors whose product fits.
pub fn scale(x: u32, y: u32) -> (s: u32)
    requires
        x * y <= u32::MAX,
    ensures
        s as int == (x * y) / 256,
{
    proof {
        lemma_shr8((x * y) as u32);
    }
    (x * y) >> 8
}

/// One channel of the blend kernel.
fn kernel_of(mode: BlendMode, t: u32, b: u32) -> (m: u32)
    requires
        t <= 255,
        b <= 255,
    ensures
        m as int == kernel(mode, t as int, b as int),
        m <= 255,
{
    proof {
        lemma_kernel(mode, t as int, b as int);
    }
    match mode {
        BlendMode::Normal => b,
        BlendMode::Multiply => 0xFF - scale(0xFF - t, 0xFF - b),
        BlendMode::Screen => scale(t, b),
        BlendMode::Add => if t + b > 0xFF {
            t + b - 0xFF
        } else {
            0
        },
        BlendMode::Subtract => if b > t {
            0xFF - (b - t)
        } else {
            0xFF
        },
        BlendMode::Overlay => if b > 0x80 {
            let p: u32 = (0xFF - t) * (0xFF - b);
            0xFF - scale(2, p)
        } else {
            let p: u32 = t * b;
            scale(2, p)
        },
        BlendMode::Darken => if t > b {
            t
        } else {
            b
        },
        BlendMode::Lighten => if t < b {
            t
        } else {
            b
        },
    }
}

/// The compositing operation.
pub trait Blend {
    /// Lays `bottom` under `self`, the composite of the layers above.
    fn under(self, bottom: Argb8, mode: BlendMode) -> Argb8;
}

impl Blend for Argb8 {
    fn under(self, bottom: Argb8, mode: BlendMode) -> (out: Argb8)
        ensures
            out == under_px(self, bottom, mode),
    {
        proof {
            lemma_channels(self);
            lemma_channels(bottom);
        }
        if self >= 0xFF00_0000 {
            return self;
        }
        let top_a: u32 = alpha_of(self);
        let bot_a: u32 = alpha_of(bottom);
        proof {
            lemma_consumed(top_a as int, bot_a as int);
        }
        let taken: u32 = scale(256 - top_a, bot_a);
        let (td_r, td_g, td_b) = rgb_of(self);
        let (bd_r, bd_g, bd_b) = rgb_of(bottom);
        let mr: u32 = kernel_of(mode, td_r, bd_r);
        let mg: u32 = kernel_of(mode, td_g, bd_g);
        let mb: u32 = kernel_of(mode, td_b, bd_b);
        proof {
            lemma_deposit(td_r as int, mr as int, taken as int);
            lemma_deposit(td_g as int, mg as int, taken as int);
            lemma_deposit(td_b as int, mb as int, taken as int);
        }
        assemble(
            top_a + taken,
            td_r + scale(mr, taken),
            td_g + scale(mg, taken),
            td_b + scale(mb, taken),
        )
    }
}

} // verus!
