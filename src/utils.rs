use vstd::prelude::*;

verus! {

/// Largest bound handed to `random_below`: below it the draw is exact.
pub const RANDOM_BOUND_MAX: usize = 0x10_0000;

/// Relies on macroquad::rand::rand (quad-rand's global generator): any `u32`
/// may come back.
#[verifier::external_body]
fn draw() -> (r: u32) {
    macroquad::rand::rand()
}

/// Relies on macroquad::rand::gen_range::<usize>(0, n): it scales a draw of
/// `rand() / 2^32`, which lies in `[0, 1)`, by `n` and truncates, so for
/// `n <= 2^20` the product is exact and the result lies in `[0, n)`.
#[verifier::external_body]
pub(crate) fn random_below(n: usize) -> (r: usize)
    requires
        0 < n <= RANDOM_BOUND_MAX,
    ensures
        r < n,
{
    macroquad::rand::gen_range(0, n)
}

/// The direction among -1, 0 and 1 that the draw `r` stands for.
pub fn ternary_of(r: u32) -> (d: i32)
    ensures
        d == (r % 3) as i32 - 1,
{
    (r % 3) as i32 - 1
}

/// The direction, -1 or 1, that the draw `r` stands for.
pub fn direction_of(r: u32) -> (d: i32)
    ensures
        d == if r % 2 == 0 {
            -1i32
        } else {
            1i32
        },
{
    if r % 2 == 0 {
        -1
    } else {
        1
    }
}

/// A random horizontal direction among -1, 0 and 1.
pub fn rand_dir() -> (r: i32)
    ensures
        -1 <= r <= 1,
{
    ternary_of(draw())
}

/// A random horizontal direction, -1 or 1.
pub fn rand_dir_2() -> (r: i32)
    ensures
        r == -1 || r == 1,
{
    direction_of(draw())
}

/// The red, green and blue channels of a colour written `0xRRGGBB`.
pub fn color_channels(color: u32) -> (r: (u8, u8, u8))
    ensures
        r.0 == (color / 0x10000) % 0x100,
        r.1 == (color / 0x100) % 0x100,
        r.2 == color % 0x100,
{
    (((color / 0x10000) % 0x100) as u8, ((color / 0x100) % 0x100) as u8, (color % 0x100) as u8)
}

} // verus!
