//! The pictures that prove a strip, its length and its order of colours.
//!
//! Dim on purpose: a whole strip at full white is more than a small supply
//! gives, and a brownout looks exactly like a driver that cannot hold a frame.

use vstd::prelude::*;

verus! {

/// A picture with one LED changed.
pub open spec fn with_led(pixels: Seq<u8>, i: int, r: u8, g: u8, b: u8) -> Seq<u8> {
    pixels.update(i * 3, r).update(i * 3 + 1, g).update(i * 3 + 2, b)
}

/// A picture of `leds` LEDs, each given by its place.
pub open spec fn picture(leds: nat, colour: spec_fn(int) -> (u8, u8, u8)) -> Seq<u8> {
    Seq::new(
        leds * 3,
        |i: int|
            if i % 3 == 0 {
                colour(i / 3).0
            } else if i % 3 == 1 {
                colour(i / 3).1
            } else {
                colour(i / 3).2
            },
    )
}

/// One LED of a picture.
pub fn set(pixels: &mut [u8], i: usize, r: u8, g: u8, b: u8)
    requires
        i * 3 + 2 < old(pixels)@.len(),
    ensures
        final(pixels)@ == with_led(old(pixels)@, i as int, r, g, b),
{
    let len: usize = pixels.len();
    assert(i * 3 + 2 < len);
    pixels[i * 3] = r;
    pixels[i * 3 + 1] = g;
    pixels[i * 3 + 2] = b;
}

/// One dim white LED, the others dark.
pub open spec fn walking_colour(at: int, i: int) -> (u8, u8, u8) {
    if i == at {
        (40, 40, 40)
    } else {
        (0, 0, 0)
    }
}

/// Ten red, ten green, and the rest blue; red nearest the controller.
pub open spec fn block_colour(i: int) -> (u8, u8, u8) {
    if i < 10 {
        (60, 0, 0)
    } else if i < 20 {
        (0, 60, 0)
    } else {
        (0, 0, 60)
    }
}

/// Dim white.
pub open spec fn white_colour(i: int) -> (u8, u8, u8) {
    (30, 30, 30)
}

/// How far along a strip of `leds` LEDs one is, out of 255.
pub open spec fn along(i: int, leds: nat) -> int {
    i * 255 / (leds - 1)
}

/// From red to blue.
pub open spec fn gradient_colour(i: int, leds: nat) -> (u8, u8, u8) {
    ((60 - along(i, leds) / 5) as u8, 0, (along(i, leds) / 4) as u8)
}

/// Every LED dark.
pub fn dark(pixels: &mut [u8])
    ensures
        final(pixels)@ == Seq::new(old(pixels)@.len(), |i: int| 0u8),
{
    let mut i: usize = 0;
    while i < pixels.len()
        invariant
            i <= pixels@.len(),
            pixels@.len() == old(pixels)@.len(),
            forall|j: int| 0 <= j < i ==> pixels@[j] == 0,
        decreases pixels@.len() - i,
    {
        pixels[i] = 0;
        i = i + 1;
    }
    assert(pixels@ =~= Seq::new(old(pixels)@.len(), |i: int| 0u8));
}

/// One dim white LED at `at`, the others dark.
pub fn walking(pixels: &mut [u8], at: usize)
    requires
        old(pixels)@.len() % 3 == 0,
        at < old(pixels)@.len() / 3,
    ensures
        final(pixels)@ == picture(old(pixels)@.len() / 3, |i: int| walking_colour(at as int, i)),
{
    dark(pixels);
    set(pixels, at, 40, 40, 40);
    assert(pixels@ =~= picture(old(pixels)@.len() / 3, |i: int| walking_colour(at as int, i)));
}

/// Ten red, ten green, and the rest blue.
pub fn blocks(pixels: &mut [u8])
    requires
        old(pixels)@.len() % 3 == 0,
    ensures
        final(pixels)@ == picture(old(pixels)@.len() / 3, |i: int| block_colour(i)),
{
    let leds: usize = pixels.len() / 3;
    let mut i: usize = 0;
    while i < leds
        invariant
            i <= leds,
            pixels@.len() == leds * 3 == old(pixels)@.len(),
            forall|j: int|
                0 <= j < 3 * i ==> #[trigger] pixels@[j] == picture(
                    leds as nat,
                    |i: int| block_colour(i),
                )[j],
        decreases leds - i,
    {
        if i < 10 {
            set(pixels, i, 60, 0, 0);
        } else if i < 20 {
            set(pixels, i, 0, 60, 0);
        } else {
            set(pixels, i, 0, 0, 60);
        }
        i = i + 1;
    }
    assert(pixels@ =~= picture(leds as nat, |i: int| block_colour(i)));
}

/// Every LED dim white, mixed from the colours.
pub fn white(pixels: &mut [u8])
    requires
        old(pixels)@.len() % 3 == 0,
    ensures
        final(pixels)@ == picture(old(pixels)@.len() / 3, |i: int| (30u8, 30u8, 30u8)),
        final(pixels)@ == picture(old(pixels)@.len() / 3, |i: int| white_colour(i)),
{
    let leds: usize = pixels.len() / 3;
    let mut i: usize = 0;
    while i < leds
        invariant
            i <= leds,
            pixels@.len() == leds * 3 == old(pixels)@.len(),
            forall|j: int| 0 <= j < 3 * i ==> pixels@[j] == 30,
        decreases leds - i,
    {
        set(pixels, i, 30, 30, 30);
        i = i + 1;
    }
    assert(pixels@ =~= picture(leds as nat, |i: int| (30u8, 30u8, 30u8)));
    assert(pixels@ =~= picture(leds as nat, |i: int| white_colour(i)));
}

proof fn along_is_in_range(i: int, leds: nat)
    requires
        0 <= i < leds,
        leds > 1,
    ensures
        0 <= along(i, leds) <= 255,
{
    assert(0 <= i * 255 / (leds - 1) <= 255) by (nonlinear_arith)
        requires
            0 <= i <= leds - 1,
            leds > 1,
    ;
}

/// From red to blue.
pub fn gradient(pixels: &mut [u8])
    requires
        old(pixels)@.len() % 3 == 0,
        old(pixels)@.len() > 3,
    ensures
        final(pixels)@ == picture(
            old(pixels)@.len() / 3,
            |i: int| gradient_colour(i, old(pixels)@.len() / 3),
        ),
{
    let leds: usize = pixels.len() / 3;
    let mut i: usize = 0;
    while i < leds
        invariant
            i <= leds,
            1 < leds,
            pixels@.len() == leds * 3 == old(pixels)@.len(),
            forall|j: int|
                0 <= j < 3 * i ==> #[trigger] pixels@[j] == picture(
                    leds as nat,
                    |i: int| gradient_colour(i, leds as nat),
                )[j],
        decreases leds - i,
    {
        proof {
            along_is_in_range(i as int, leds as nat);
        }
        let t: u8 = (i as u128 * 255 / (leds as u128 - 1)) as u8;
        set(pixels, i, 60 - t / 5, 0, t / 4);
        i = i + 1;
    }
    assert(pixels@ =~= picture(leds as nat, |i: int| gradient_colour(i, leds as nat)));
}

/// A picture holds red, green and blue of each LED in turn.
pub proof fn a_picture_is_its_leds(leds: nat, colour: spec_fn(int) -> (u8, u8, u8), i: int)
    requires
        0 <= i < leds,
    ensures
        picture(leds, colour).len() == 3 * leds,
        picture(leds, colour)[3 * i] == colour(i).0,
        picture(leds, colour)[3 * i + 1] == colour(i).1,
        picture(leds, colour)[3 * i + 2] == colour(i).2,
{
}

/// One LED of a picture is changed, and no other.
pub proof fn one_led_is_changed(pixels: Seq<u8>, i: int, r: u8, g: u8, b: u8, k: int)
    requires
        0 <= i,
        i * 3 + 2 < pixels.len(),
        0 <= k < pixels.len(),
    ensures
        with_led(pixels, i, r, g, b).len() == pixels.len(),
        with_led(pixels, i, r, g, b)[i * 3] == r,
        with_led(pixels, i, r, g, b)[i * 3 + 1] == g,
        with_led(pixels, i, r, g, b)[i * 3 + 2] == b,
        k / 3 != i ==> with_led(pixels, i, r, g, b)[k] == pixels[k],
{
}

/// Exactly one LED is lit, and it is dim and without colour.
pub proof fn one_dim_led_walks(at: int, i: int)
    ensures
        i == at ==> walking_colour(at, i) == (40u8, 40u8, 40u8),
        i != at ==> walking_colour(at, i) == (0u8, 0u8, 0u8),
{
}

/// Every LED of the blocks shows one colour and is equally dim: red ten times, then
/// green ten times, then blue.
pub proof fn each_block_has_its_colour(i: int)
    ensures
        i < 10 ==> block_colour(i) == (60u8, 0u8, 0u8),
        10 <= i < 20 ==> block_colour(i) == (0u8, 60u8, 0u8),
        20 <= i ==> block_colour(i) == (0u8, 0u8, 60u8),
{
}

/// A gradient starts red and ends blue; on the way red never rises, blue never
/// falls, and there is no green. How far along an LED is, is its share of 255.
pub proof fn a_gradient_goes_from_red_to_blue(i: int, j: int, leds: nat)
    requires
        0 <= i <= j < leds,
        leds > 1,
    ensures
        gradient_colour(0, leds) == (60u8, 0u8, 0u8),
        gradient_colour(leds - 1, leds) == (9u8, 0u8, 63u8),
        gradient_colour(i, leds).0 >= gradient_colour(j, leds).0,
        gradient_colour(i, leds).2 <= gradient_colour(j, leds).2,
        gradient_colour(i, leds).1 == 0,
        along(i, leds) * (leds - 1) <= i * 255 < (along(i, leds) + 1) * (leds - 1),
        gradient_colour(i, leds).0 == 60 - along(i, leds) / 5,
        gradient_colour(i, leds).2 == along(i, leds) / 4,
{
    along_is_in_range(i, leds);
    along_is_in_range(j, leds);
    let n = leds - 1;
    let a = along(i, leds);
    vstd::arithmetic::div_mod::lemma_fundamental_div_mod(i * 255, n);
    vstd::arithmetic::div_mod::lemma_mod_bound(i * 255, n);
    assert((a + 1) * n == n * a + n && a * n == n * a) by (nonlinear_arith);
    vstd::arithmetic::div_mod::lemma_div_is_ordered(i * 255, j * 255, n);
    assert(n * 255 / n == 255) by (nonlinear_arith)
        requires
            n > 0,
    ;
    assert(0int * 255 / n == 0) by (nonlinear_arith)
        requires
            n > 0,
    ;
}

/// Every picture is dim: no colour of any LED is above a quarter, so that a whole strip
/// never draws more than that of what it could. White is the three colours alike, and
/// half as bright as one of them alone.
pub proof fn every_picture_is_dim(at: int, i: int, leds: nat)
    requires
        0 <= i < leds,
        leds > 1,
    ensures
        is_dim(walking_colour(at, i)),
        is_dim(block_colour(i)),
        is_dim(white_colour(i)),
        is_dim(gradient_colour(i, leds)),
        white_colour(i) == (30u8, 30u8, 30u8),
{
    a_gradient_goes_from_red_to_blue(i, i, leds);
    along_is_in_range(i, leds);
}

/// No more than a quarter of what an LED can show, in each colour.
pub open spec fn is_dim(colour: (u8, u8, u8)) -> bool {
    colour.0 < 64 && colour.1 < 64 && colour.2 < 64
}

} // verus!
