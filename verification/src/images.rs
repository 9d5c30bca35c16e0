//! Image files made ready for the screen: decoded to RGBA rows, and shrunk
//! when a side is longer than the screen can take.
//!
//! The `image` crate reads the bytes and resamples the pixels. What this
//! module decides is the size: the largest one with the image's aspect
//! ratio that fits the limit.

use vstd::prelude::*;

use image::DynamicImage;

verus! {

#[verifier::external_type_specification]
#[verifier::external_body]
pub struct ExDynamicImage(DynamicImage);

/// The width and height of a decoded image.
pub uninterp spec fn dims_of(image: DynamicImage) -> (u32, u32);

/// The pixels of a decoded image as RGBA8 rows, top row first.
pub uninterp spec fn rgba_of(image: DynamicImage) -> Seq<u8>;

/// The image that a triangle filter resamples to exactly this size.
pub uninterp spec fn resized(image: DynamicImage, width: u32, height: u32) -> DynamicImage;

/// Whether `image` is an image the `image` crate's decoding gave for these
/// bytes. Which image that is can depend on hooks registered in the
/// process, so this names only that the image came from these bytes.
pub uninterp spec fn read_from(image: DynamicImage, bytes: Seq<u8>) -> bool;

/// Reads PNG or JPEG bytes.
///
/// Calls `image::load_from_memory`, which guesses the format from the
/// bytes and decodes them. Which format and which decoder it takes can
/// depend on hooks that any code of the process may register, so the
/// contract states only that an image it gives was read from these bytes:
/// neither whether the bytes read, nor which image, nor the message of a
/// failure.
#[verifier::external_body]
fn load_image(bytes: &[u8]) -> (r: Result<DynamicImage, String>)
    ensures
        r is Ok ==> read_from(r->Ok_0, bytes@),
{
    image::load_from_memory(bytes).map_err(|error| error.to_string())
}

/// The width of an image.
///
/// Calls `DynamicImage::width`, which returns the width of the underlying
/// buffer.
#[verifier::external_body]
fn image_width(image: &DynamicImage) -> (r: u32)
    ensures
        r == dims_of(*image).0,
{
    image.width()
}

/// The height of an image.
///
/// Calls `DynamicImage::height`, which returns the height of the
/// underlying buffer.
#[verifier::external_body]
fn image_height(image: &DynamicImage) -> (r: u32)
    ensures
        r == dims_of(*image).1,
{
    image.height()
}

/// The image resampled to exactly this size with a triangle filter.
///
/// Calls `DynamicImage::resize_exact`, whose result is a new buffer of
/// exactly the width and height it was given, so its RGBA8 rows hold four
/// bytes a pixel. The resampled pixels are named by the image, the width
/// and the height alone.
#[verifier::external_body]
fn resize_image(image: &DynamicImage, width: u32, height: u32) -> (r: DynamicImage)
    ensures
        r == resized(*image, width, height),
        dims_of(r) == (width, height),
        rgba_of(r).len() == 4 * width * height,
{
    image.resize_exact(width, height, image::imageops::FilterType::Triangle)
}

/// The pixels of an image as RGBA8 rows, top row first.
///
/// Calls `DynamicImage::into_rgba8`, which converts the image to RGBA8 or
/// hands an RGBA8 image through as it is, and `ImageBuffer::into_raw`,
/// which hands out its buffer. A buffer handed through may be longer than
/// the pixels need, so the contract names the bytes and states no length.
#[verifier::external_body]
fn into_rgba(image: DynamicImage) -> (r: Vec<u8>)
    ensures
        r@ == rgba_of(image),
{
    image.into_rgba8().into_raw()
}

/// A decoded image: RGBA8 rows, top row first.
#[derive(Debug, PartialEq, Eq)]
pub struct Decoded {
    pub size: (u32, u32),
    pub rgba: Vec<u8>,
}

/// Two to the power `k`.
pub open spec fn two_to(k: nat) -> nat
    decreases k,
{
    if k == 0 {
        1
    } else {
        2 * two_to((k - 1) as nat)
    }
}

/// `n / d` rounded to the nearest whole number, a tie to the even one.
pub open spec fn nearest_even(n: nat, d: nat) -> nat {
    let q = n / d;
    let r = n % d;
    if 2 * r < d {
        q
    } else if 2 * r > d {
        q + 1
    } else if q % 2 == 0 {
        q
    } else {
        q + 1
    }
}

/// How many doublings, from `k` on, lift `n / d` to at least 2^52, so that
/// its whole part holds the 53 bits of a double.
pub open spec fn doublings(n: nat, d: nat, k: nat) -> nat
    decreases 200 - k,
{
    if k >= 200 || n * two_to(k) >= two_to(52) * d {
        k
    } else {
        doublings(n, d, k + 1)
    }
}

/// How many halvings, from `s` on, leave `n` with fewer than 53 bits.
pub open spec fn halvings(n: nat, s: nat) -> nat
    decreases 200 - s,
{
    if s >= 200 || n / two_to(s) < two_to(53) {
        s
    } else {
        halvings(n, s + 1)
    }
}

/// A whole number rounded to the 53 significant bits of a double, a tie
/// to the even one.
pub open spec fn to_double(n: nat) -> nat {
    let s = halvings(n, 0);
    nearest_even(n, two_to(s)) * two_to(s)
}

/// `side * (limit / longest)` as a double computes it, then rounded to the
/// nearest whole number, a half away from zero.
///
/// The quotient `limit / longest` is the double nearest to it: its 53 bits
/// are `limit * 2^k / longest` rounded, a tie to the even one, with `k`
/// the doublings that lift it past 2^52. The product with `side` is that
/// many bits times `side`, rounded again to 53 bits, over `2^k`.
pub open spec fn scaled(side: nat, limit: nat, longest: nat) -> nat {
    if limit == 0 {
        0
    } else {
        let k = doublings(limit, longest, 0);
        let bits = nearest_even(limit * two_to(k), longest);
        let product = to_double(side * bits);
        (2 * product + two_to(k)) / (2 * two_to(k))
    }
}

/// A whole number as a `u32` takes it from a double: the number, or the
/// largest `u32` for one beyond it.
pub open spec fn as_side(n: nat) -> u32 {
    if n > u32::MAX { u32::MAX } else { n as u32 }
}

/// The longer side of a size.
pub open spec fn longest_side(size: (u32, u32)) -> u32 {
    if size.0 >= size.1 { size.0 } else { size.1 }
}

/// The largest size with the same aspect ratio that fits in `max_side`:
/// the size itself when it fits, else each side times
/// `max_side / longest`, as doubles compute it, rounded to the nearest
/// whole number.
pub open spec fn fitted(size: (u32, u32), max_side: u32) -> (u32, u32) {
    let longest = longest_side(size);
    if longest <= max_side {
        size
    } else {
        (
            as_side(scaled(size.0 as nat, max_side as nat, longest as nat)),
            as_side(scaled(size.1 as nat, max_side as nat, longest as nat)),
        )
    }
}

proof fn lemma_two_to_values()
    ensures
        two_to(52) == 0x10_0000_0000_0000,
        two_to(53) == 0x20_0000_0000_0000,
        two_to(86) == 0x40_0000_0000_0000_0000_0000,
{
    reveal_with_fuel(two_to, 90);
}

proof fn lemma_two_to_positive(a: nat)
    ensures
        two_to(a) >= 1,
    decreases a,
{
    if a > 0 {
        lemma_two_to_positive((a - 1) as nat);
    }
}

proof fn lemma_two_to_grows(a: nat, b: nat)
    requires
        a <= b,
    ensures
        two_to(a) <= two_to(b),
    decreases b,
{
    if a < b {
        lemma_two_to_grows(a, (b - 1) as nat);
        lemma_two_to_positive((b - 1) as nat);
    }
}

/// `n / d` to the nearest whole number, a tie to the even one, and no
/// more than `n / d + 1`.
fn nearest_even_of(n: u128, d: u128) -> (r: u128)
    requires
        d > 0,
        n < 0x1_0000_0000_0000_0000_0000_0000,
    ensures
        r == nearest_even(n as nat, d as nat),
        r <= n / d + 1,
{
    let q = n / d;
    let rest = n % d;
    proof {
        vstd::arithmetic::div_mod::lemma_div_is_ordered_by_denominator(n as int, 1, d as int);
        assert(q <= n);
        assert(rest < d);
    }
    if rest < d - rest {
        q
    } else if rest > d - rest {
        q + 1
    } else if q % 2 == 0 {
        q
    } else {
        q + 1
    }
}

/// One side times `limit / longest` as doubles compute it, rounded.
fn scale_side(side: u32, limit: u32, longest: u32) -> (r: u32)
    requires
        0 < limit < longest,
    ensures
        r == as_side(scaled(side as nat, limit as nat, longest as nat)),
{
    let big: u128 = 0x10_0000_0000_0000;
    proof {
        lemma_two_to_values();
    }
    let ghost nlimit = limit as nat;
    let ghost nlongest = longest as nat;
    let threshold: u128 = (longest as u128) * big;
    // The doublings of the quotient.
    let mut k: u32 = 0;
    let mut lifted: u128 = limit as u128;
    let mut pk: u128 = 1;
    while lifted < threshold
        invariant
            0 < limit < longest,
            threshold == nlongest * two_to(52),
            threshold < 0x10_0000_0000_0000_0000_0000,
            big == two_to(52),
            two_to(86) == 0x40_0000_0000_0000_0000_0000,
            pk == two_to(k as nat),
            pk >= 1,
            lifted == nlimit * two_to(k as nat),
            pk <= lifted,
            lifted < 2 * threshold,
            k <= 86,
            doublings(nlimit, nlongest, 0) == doublings(nlimit, nlongest, k as nat),
        decreases 86 - k,
    {
        proof {
            if k >= 86 {
                lemma_two_to_grows(86, k as nat);
                assert(false);
            }
            assert(nlimit * two_to(k as nat) < two_to(52) * nlongest) by (nonlinear_arith)
                requires
                    lifted == nlimit * two_to(k as nat),
                    threshold == nlongest * two_to(52),
                    lifted < threshold,
            ;
            assert(doublings(nlimit, nlongest, k as nat) == doublings(nlimit, nlongest, (k + 1) as nat));
        }
        lifted = lifted * 2;
        pk = pk * 2;
        k = k + 1;
        proof {
            assert(two_to(k as nat) == 2 * two_to((k - 1) as nat));
            assert(lifted == nlimit * two_to(k as nat)) by (nonlinear_arith)
                requires
                    lifted == 2 * (nlimit * two_to((k - 1) as nat)),
                    two_to(k as nat) == 2 * two_to((k - 1) as nat),
            ;
        }
    }
    let ghost kk = k as nat;
    proof {
        assert(nlimit * two_to(kk) >= two_to(52) * nlongest) by (nonlinear_arith)
            requires
                lifted == nlimit * two_to(kk),
                threshold == nlongest * two_to(52),
                lifted >= threshold,
        ;
        assert(doublings(nlimit, nlongest, kk) == kk);
    }
    let bits = nearest_even_of(lifted, longest as u128);
    proof {
        assert(lifted / (longest as u128) < 2 * big) by {
            assert((lifted as int) < (longest as int) * (2 * big as int));
            vstd::arithmetic::div_mod::lemma_multiply_divide_lt(lifted as int, longest as int, 2 * big as int);
        }
        assert(bits <= 2 * big);
        assert((side as u128) * bits <= 0xffff_ffff * 0x20_0000_0000_0000) by (nonlinear_arith)
            requires
                side <= 0xffff_ffff,
                bits <= 0x20_0000_0000_0000,
        ;
    }
    let n: u128 = (side as u128) * bits;
    let ghost nn = n as nat;
    // The halvings that leave 53 bits.
    let top: u128 = 0x20_0000_0000_0000;
    let mut s: u32 = 0;
    let mut ps: u128 = 1;
    let mut x: u128 = n;
    proof {
        assert(n / 1 == n);
    }
    while x >= top
        invariant
            top == two_to(53),
            top == 0x20_0000_0000_0000,
            two_to(86) == 0x40_0000_0000_0000_0000_0000,
            nn < 0x40_0000_0000_0000_0000_0000,
            n == nn,
            ps == two_to(s as nat),
            ps >= 1,
            x == nn / (ps as nat),
            ps == 1 || ps <= n,
            s <= 86,
            halvings(nn, 0) == halvings(nn, s as nat),
        decreases x,
    {
        proof {
            if s >= 86 {
                lemma_two_to_grows(86, s as nat);
                assert(false);
            }
            assert(nn / two_to(s as nat) >= two_to(53));
            assert(halvings(nn, s as nat) == halvings(nn, (s + 1) as nat));
            vstd::arithmetic::div_mod::lemma_div_denominator(nn as int, ps as int, 2);
            assert(ps * 2 <= nn) by {
                vstd::arithmetic::div_mod::lemma_fundamental_div_mod(nn as int, ps as int);
                assert(ps * x <= nn) by (nonlinear_arith)
                    requires
                        x == nn / (ps as nat),
                        ps > 0,
                ;
                assert(ps * 2 <= ps * x) by (nonlinear_arith)
                    requires
                        x >= 2,
                        ps > 0,
                ;
            }
        }
        x = x / 2;
        ps = ps * 2;
        s = s + 1;
        proof {
            assert(two_to(s as nat) == 2 * two_to((s - 1) as nat));
        }
    }
    let ghost ss = s as nat;
    proof {
        assert(nn / two_to(ss) < two_to(53));
        assert(halvings(nn, ss) == ss);
    }
    let m = nearest_even_of(n, ps);
    proof {
        assert(m * ps <= n + ps) by (nonlinear_arith)
            requires
                m <= n / ps + 1,
                ps > 0,
        ;
        assert(m * ps <= 2 * n);
    }
    let product: u128 = m * ps;
    proof {
        assert(product == to_double(nn));
        lemma_two_to_grows(kk, 86);
    }
    let value: u128 = (2 * product + pk) / (2 * pk);
    proof {
        assert(value == scaled(side as nat, nlimit, nlongest));
    }
    if value > 0xffff_ffff {
        0xffff_ffff
    } else {
        value as u32
    }
}

/// The largest size with the same aspect ratio that fits in `max_side`.
///
/// A size that fits comes back as it is. Otherwise each side is scaled by
/// `max_side / longest`, as doubles compute it, and rounded to the nearest
/// whole number, so the longer side becomes `max_side`.
pub fn shrink_to_fit(size: (u32, u32), max_side: u32) -> (r: (u32, u32))
    ensures
        r == fitted(size, max_side),
{
    let longest: u32 = if size.0 >= size.1 { size.0 } else { size.1 };
    if longest <= max_side {
        return size;
    }
    if max_side == 0 {
        return (0, 0);
    }
    (scale_side(size.0, max_side, longest), scale_side(size.1, max_side, longest))
}

/// Whether `size` and `rgba` are an image made ready for the screen: the
/// size [`fitted`] gives, and the pixels of the image itself when that is
/// its own size, else the pixels of the image resampled to that size.
pub open spec fn made_ready(image: DynamicImage, max_side: u32, size: (u32, u32), rgba: Seq<u8>) -> bool {
    let want = fitted(dims_of(image), max_side);
    &&& size == want
    &&& if want == dims_of(image) {
        rgba == rgba_of(image)
    } else {
        &&& rgba == rgba_of(resized(image, want.0, want.1))
        &&& rgba.len() == 4 * want.0 * want.1
    }
}

/// An image made ready for the screen: shrunk to fit `max_side` when a
/// side is longer, then laid out as RGBA8 rows.
pub fn fit_image(image: DynamicImage, max_side: u32) -> (d: Decoded)
    ensures
        made_ready(image, max_side, d.size, d.rgba@),
{
    let size = (image_width(&image), image_height(&image));
    let fitted = shrink_to_fit(size, max_side);
    if fitted.0 == size.0 && fitted.1 == size.1 {
        let rgba = into_rgba(image);
        Decoded { size: fitted, rgba }
    } else {
        let smaller = resize_image(&image, fitted.0, fitted.1);
        let rgba = into_rgba(smaller);
        Decoded { size: fitted, rgba }
    }
}

/// Decodes PNG or JPEG bytes. Images beyond `max_side` pixels are shrunk.
///
/// Whether the bytes read, and as what image, is the `image` crate's
/// answer; whatever image it gives, the result is that image made ready.
///
/// # Errors
///
/// Returns the decoder's message when `bytes` is not an image it can read.
pub fn decode(bytes: &[u8], max_side: u32) -> (r: Result<Decoded, String>)
    ensures
        r matches Ok(d) ==> exists|image: DynamicImage| #[trigger] read_from(image, bytes@) && made_ready(
            image,
            max_side,
            d.size,
            d.rgba@,
        ),
{
    match load_image(bytes) {
        Ok(image) => {
            let ghost read = image;
            let d = fit_image(image, max_side);
            let ghost size = d.size;
            let ghost rgba = d.rgba@;
            proof {
                assert(read_from(read, bytes@));
                assert(made_ready(read, max_side, size, rgba));
            }
            let r = Ok(d);
            proof {
                assert(r matches Ok(x) && x.size == size && x.rgba@ == rgba);
            }
            r
        },
        Err(message) => Err(message),
    }
}

} // verus!
