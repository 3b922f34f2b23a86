//! The monochrome display: a 64x32 grid of pixels, row-major, one byte
//! per pixel holding 0 or 1.  Sprites are drawn by XOR-plotting their
//! bits with horizontal and vertical wraparound; drawing reports whether
//! any pixel was turned from on to off (a collision).

use vstd::prelude::*;
use vstd::arithmetic::div_mod::{
    lemma_add_mod_noop_right, lemma_mod_add_multiples_vanish, lemma_mod_bound, lemma_small_mod,
};

verus! {

/// The flat index of the pixel at wrapped coordinates `(x mod 64, y mod 32)`.
pub open spec fn pix_index(x: int, y: int) -> int {
    (y % 32) * 64 + (x % 64)
}

/// XOR-plotting a bit onto a pixel flips it.
pub open spec fn flip(p: u8) -> u8 {
    if p == 0 {
        1u8
    } else {
        0u8
    }
}

/// Bit `c` (counting from the most significant) of a sprite row byte.
pub open spec fn sprite_bit(b: u8, c: int) -> u8 {
    (b >> ((7 - c) as u8)) & 1
}

/// Whether some set bit of the sprite, drawn at `(x, y)`, lands on the
/// pixel with flat index `idx`.
pub open spec fn covers(sprite: Seq<u8>, x: int, y: int, idx: int) -> bool {
    exists|r: int, c: int|
        0 <= r < sprite.len() && 0 <= c < 8 && sprite_bit(sprite[r], c) == 1
            && #[trigger] pix_index(x + c, y + r) == idx
}

/// Whether some set bit of the sprite lands on a pixel that is already on
/// in screen `s`: the collision condition.
pub open spec fn collides(s: Seq<u8>, sprite: Seq<u8>, x: int, y: int) -> bool {
    exists|r: int, c: int|
        0 <= r < sprite.len() && 0 <= c < 8 && sprite_bit(sprite[r], c) == 1
            && s[#[trigger] pix_index(x + c, y + r)] == 1
}

/// The screen after the sprite is drawn at `(x, y)`: every covered pixel
/// is flipped, every other pixel keeps its value.
pub open spec fn draw_spec(s: Seq<u8>, sprite: Seq<u8>, x: int, y: int) -> Seq<u8> {
    Seq::new(
        s.len(),
        |idx: int|
            if covers(sprite, x, y, idx) {
                flip(s[idx])
            } else {
                s[idx]
            },
    )
}

/// Like `covers`, restricted to the sprite bits strictly before row `r`,
/// column `c` in drawing order.
spec fn covers_before(sprite: Seq<u8>, x: int, y: int, idx: int, r: int, c: int) -> bool {
    exists|ri: int, ci: int|
        0 <= ri < sprite.len() && 0 <= ci < 8 && (ri < r || (ri == r && ci < c))
            && sprite_bit(sprite[ri], ci) == 1 && #[trigger] pix_index(x + ci, y + ri) == idx
}

/// Like `collides`, restricted to the sprite bits strictly before row
/// `r`, column `c` in drawing order.
spec fn collides_before(s: Seq<u8>, sprite: Seq<u8>, x: int, y: int, r: int, c: int) -> bool {
    exists|ri: int, ci: int|
        0 <= ri < sprite.len() && 0 <= ci < 8 && (ri < r || (ri == r && ci < c))
            && sprite_bit(sprite[ri], ci) == 1 && s[#[trigger] pix_index(x + ci, y + ri)] == 1
}

/// A pixel index is always inside the 2048-pixel buffer.
pub proof fn lemma_pix_bound(x: int, y: int)
    ensures
        0 <= pix_index(x, y) < 2048,
{
    lemma_mod_bound(y, 32);
    lemma_mod_bound(x, 64);
}

/// Offsets below the modulus reach distinct cells: `(a + d) mod m` is
/// injective in `d` over `[0, m)`.
proof fn lemma_mod_cancel(a: int, d1: int, d2: int, m: int)
    requires
        0 <= a,
        0 <= d1 < m,
        0 <= d2 < m,
        (a + d1) % m == (a + d2) % m,
    ensures
        d1 == d2,
{
    let a0 = a % m;
    lemma_mod_bound(a, m);
    lemma_add_mod_noop_right(d1, a, m);
    lemma_add_mod_noop_right(d2, a, m);
    assert((a0 + d1) % m == (a0 + d2) % m);
    if a0 + d1 < m {
        lemma_small_mod((a0 + d1) as nat, m as nat);
    } else {
        lemma_mod_add_multiples_vanish(a0 + d1 - m, m);
        lemma_small_mod((a0 + d1 - m) as nat, m as nat);
    }
    if a0 + d2 < m {
        lemma_small_mod((a0 + d2) as nat, m as nat);
    } else {
        lemma_mod_add_multiples_vanish(a0 + d2 - m, m);
        lemma_small_mod((a0 + d2 - m) as nat, m as nat);
    }
}

/// Distinct bits of a sprite of at most 16 rows land on distinct pixels.
proof fn lemma_pix_inj(x: int, y: int, r1: int, c1: int, r2: int, c2: int)
    requires
        0 <= x,
        0 <= y,
        0 <= r1 < 16,
        0 <= c1 < 8,
        0 <= r2 < 16,
        0 <= c2 < 8,
        pix_index(x + c1, y + r1) == pix_index(x + c2, y + r2),
    ensures
        r1 == r2,
        c1 == c2,
{
    lemma_mod_bound(y + r1, 32);
    lemma_mod_bound(y + r2, 32);
    lemma_mod_bound(x + c1, 64);
    lemma_mod_bound(x + c2, 64);
    assert((y + r1) % 32 == (y + r2) % 32 && (x + c1) % 64 == (x + c2) % 64);
    lemma_mod_cancel(y, r1, r2, 32);
    lemma_mod_cancel(x, c1, c2, 64);
}

/// Extending the processed prefix by one bit adds exactly that bit's
/// target to the covered set.
proof fn lemma_covers_step(sprite: Seq<u8>, x: int, y: int, idx: int, r: int, c: int)
    requires
        0 <= r < sprite.len(),
        0 <= c < 8,
    ensures
        covers_before(sprite, x, y, idx, r, c + 1) <==> (covers_before(sprite, x, y, idx, r, c)
            || (sprite_bit(sprite[r], c) == 1 && pix_index(x + c, y + r) == idx)),
{
    if covers_before(sprite, x, y, idx, r, c + 1) {
        let (ri, ci) = choose|ri: int, ci: int|
            0 <= ri < sprite.len() && 0 <= ci < 8 && (ri < r || (ri == r && ci < c + 1))
                && sprite_bit(sprite[ri], ci) == 1 && #[trigger] pix_index(x + ci, y + ri) == idx;
        if ri == r && ci == c {
            assert(sprite_bit(sprite[r], c) == 1 && pix_index(x + c, y + r) == idx);
        } else {
            assert(ri < r || (ri == r && ci < c));
            assert(covers_before(sprite, x, y, idx, r, c));
        }
    }
    if covers_before(sprite, x, y, idx, r, c) {
        let (ri, ci) = choose|ri: int, ci: int|
            0 <= ri < sprite.len() && 0 <= ci < 8 && (ri < r || (ri == r && ci < c))
                && sprite_bit(sprite[ri], ci) == 1 && #[trigger] pix_index(x + ci, y + ri) == idx;
        assert(covers_before(sprite, x, y, idx, r, c + 1));
    }
    if sprite_bit(sprite[r], c) == 1 && pix_index(x + c, y + r) == idx {
        assert(covers_before(sprite, x, y, idx, r, c + 1));
    }
}

/// Same as `lemma_covers_step`, for the collision condition.
proof fn lemma_collides_step(s: Seq<u8>, sprite: Seq<u8>, x: int, y: int, r: int, c: int)
    requires
        0 <= r < sprite.len(),
        0 <= c < 8,
    ensures
        collides_before(s, sprite, x, y, r, c + 1) <==> (collides_before(s, sprite, x, y, r, c)
            || (sprite_bit(sprite[r], c) == 1 && s[pix_index(x + c, y + r)] == 1)),
{
    if collides_before(s, sprite, x, y, r, c + 1) {
        let (ri, ci) = choose|ri: int, ci: int|
            0 <= ri < sprite.len() && 0 <= ci < 8 && (ri < r || (ri == r && ci < c + 1))
                && sprite_bit(sprite[ri], ci) == 1 && s[#[trigger] pix_index(x + ci, y + ri)]
                == 1;
        if ri == r && ci == c {
            assert(sprite_bit(sprite[r], c) == 1 && s[pix_index(x + c, y + r)] == 1);
        } else {
            assert(collides_before(s, sprite, x, y, r, c));
        }
    }
    if collides_before(s, sprite, x, y, r, c) {
        let (ri, ci) = choose|ri: int, ci: int|
            0 <= ri < sprite.len() && 0 <= ci < 8 && (ri < r || (ri == r && ci < c))
                && sprite_bit(sprite[ri], ci) == 1 && s[#[trigger] pix_index(x + ci, y + ri)]
                == 1;
        assert(collides_before(s, sprite, x, y, r, c + 1));
    }
    if sprite_bit(sprite[r], c) == 1 && s[pix_index(x + c, y + r)] == 1 {
        assert(collides_before(s, sprite, x, y, r, c + 1));
    }
}

/// Finishing a row is the same processed set as starting the next row.
proof fn lemma_row_advance(sprite: Seq<u8>, x: int, y: int, idx: int, r: int)
    ensures
        covers_before(sprite, x, y, idx, r, 8) <==> covers_before(sprite, x, y, idx, r + 1, 0),
{
    if covers_before(sprite, x, y, idx, r, 8) {
        let (ri, ci) = choose|ri: int, ci: int|
            0 <= ri < sprite.len() && 0 <= ci < 8 && (ri < r || (ri == r && ci < 8))
                && sprite_bit(sprite[ri], ci) == 1 && #[trigger] pix_index(x + ci, y + ri) == idx;
        assert(covers_before(sprite, x, y, idx, r + 1, 0));
    }
    if covers_before(sprite, x, y, idx, r + 1, 0) {
        let (ri, ci) = choose|ri: int, ci: int|
            0 <= ri < sprite.len() && 0 <= ci < 8 && (ri < r + 1 || (ri == r + 1 && ci < 0))
                && sprite_bit(sprite[ri], ci) == 1 && #[trigger] pix_index(x + ci, y + ri) == idx;
        assert(covers_before(sprite, x, y, idx, r, 8));
    }
}

/// Same as `lemma_row_advance`, for the collision condition.
proof fn lemma_row_advance_collides(s: Seq<u8>, sprite: Seq<u8>, x: int, y: int, r: int)
    ensures
        collides_before(s, sprite, x, y, r, 8) <==> collides_before(s, sprite, x, y, r + 1, 0),
{
    if collides_before(s, sprite, x, y, r, 8) {
        let (ri, ci) = choose|ri: int, ci: int|
            0 <= ri < sprite.len() && 0 <= ci < 8 && (ri < r || (ri == r && ci < 8))
                && sprite_bit(sprite[ri], ci) == 1 && s[#[trigger] pix_index(x + ci, y + ri)]
                == 1;
        assert(collides_before(s, sprite, x, y, r + 1, 0));
    }
    if collides_before(s, sprite, x, y, r + 1, 0) {
        let (ri, ci) = choose|ri: int, ci: int|
            0 <= ri < sprite.len() && 0 <= ci < 8 && (ri < r + 1 || (ri == r + 1 && ci < 0))
                && sprite_bit(sprite[ri], ci) == 1 && s[#[trigger] pix_index(x + ci, y + ri)]
                == 1;
        assert(collides_before(s, sprite, x, y, r, 8));
    }
}

/// Processing every row covers exactly what `covers` describes.
proof fn lemma_covers_complete(s: Seq<u8>, sprite: Seq<u8>, x: int, y: int, idx: int)
    ensures
        covers_before(sprite, x, y, idx, sprite.len() as int, 0) <==> covers(sprite, x, y, idx),
        collides_before(s, sprite, x, y, sprite.len() as int, 0) <==> collides(s, sprite, x, y),
{
    let n = sprite.len() as int;
    if covers_before(sprite, x, y, idx, n, 0) {
        let (ri, ci) = choose|ri: int, ci: int|
            0 <= ri < sprite.len() && 0 <= ci < 8 && (ri < n || (ri == n && ci < 0))
                && sprite_bit(sprite[ri], ci) == 1 && #[trigger] pix_index(x + ci, y + ri) == idx;
        assert(covers(sprite, x, y, idx));
    }
    if covers(sprite, x, y, idx) {
        let (ri, ci) = choose|ri: int, ci: int|
            0 <= ri < sprite.len() && 0 <= ci < 8 && sprite_bit(sprite[ri], ci) == 1
                && #[trigger] pix_index(x + ci, y + ri) == idx;
        assert(covers_before(sprite, x, y, idx, n, 0));
    }
    if collides_before(s, sprite, x, y, n, 0) {
        let (ri, ci) = choose|ri: int, ci: int|
            0 <= ri < sprite.len() && 0 <= ci < 8 && (ri < n || (ri == n && ci < 0))
                && sprite_bit(sprite[ri], ci) == 1 && s[#[trigger] pix_index(x + ci, y + ri)]
                == 1;
        assert(collides(s, sprite, x, y));
    }
    if collides(s, sprite, x, y) {
        let (ri, ci) = choose|ri: int, ci: int|
            0 <= ri < sprite.len() && 0 <= ci < 8 && sprite_bit(sprite[ri], ci) == 1
                && s[#[trigger] pix_index(x + ci, y + ri)] == 1;
        assert(collides_before(s, sprite, x, y, n, 0));
    }
}

/// The display buffer.
pub struct Display {
    pixels: Vec<u8>,
}

impl View for Display {
    type V = Seq<u8>;

    closed spec fn view(&self) -> Seq<u8> {
        self.pixels@
    }
}

impl Display {
    /// The buffer holds exactly 64 x 32 pixels, each 0 or 1.
    pub open spec fn wf(&self) -> bool {
        self@.len() == 2048 && forall|i: int| 0 <= i < 2048 ==> self@[i] <= 1
    }

    /// A fresh display: every pixel off.
    pub fn new() -> (d: Display)
        ensures
            d.wf(),
            forall|i: int| 0 <= i < 2048 ==> d@[i] == 0u8,
    {
        let mut pixels: Vec<u8> = Vec::new();
        let mut n: usize = 0;
        while n < 2048
            invariant
                pixels@.len() == n,
                n <= 2048,
                forall|i: int| 0 <= i < n ==> pixels@[i] == 0u8,
            decreases 2048 - n,
        {
            pixels.push(0u8);
            n = n + 1;
        }
        Display { pixels }
    }

    /// Turns every pixel off.
    pub fn clear(&mut self)
        requires
            old(self).wf(),
        ensures
            final(self).wf(),
            forall|i: int| 0 <= i < 2048 ==> final(self)@[i] == 0u8,
    {
        let mut n: usize = 0;
        while n < 2048
            invariant
                self@.len() == 2048,
                n <= 2048,
                forall|i: int| 0 <= i < n ==> self@[i] == 0u8,
                forall|i: int| 0 <= i < 2048 ==> self@[i] <= 1,
            decreases 2048 - n,
        {
            self.pixels.set(n, 0u8);
            n = n + 1;
        }
    }

    /// Reads the pixel at wrapped coordinates `(x mod 64, y mod 32)`.
    pub fn get_pixel(&self, x: u8, y: u8) -> (p: u8)
        requires
            self.wf(),
        ensures
            p == self@[pix_index(x as int, y as int)],
            p <= 1,
    {
        let idx: usize = (y as usize % 32) * 64 + (x as usize % 64);
        self.pixels[idx]
    }

    /// Draws a sprite of up to 16 rows at `(x, y)`: each set bit flips
    /// the pixel it lands on, with wraparound at both edges.  Returns
    /// whether any flipped pixel was already on.
    pub fn draw_sprite(&mut self, x: u8, y: u8, sprite: &Vec<u8>) -> (collision: bool)
        requires
            old(self).wf(),
            sprite@.len() <= 16,
        ensures
            final(self).wf(),
            final(self)@ == draw_spec(old(self)@, sprite@, x as int, y as int),
            collision == collides(old(self)@, sprite@, x as int, y as int),
    {
        let ghost s0 = old(self)@;
        let ghost gx = x as int;
        let ghost gy = y as int;
        let mut collision = false;
        let mut r: usize = 0;
        while r < sprite.len()
            invariant
                self@.len() == 2048,
                forall|i: int| 0 <= i < 2048 ==> self@[i] <= 1,
                s0.len() == 2048,
                forall|i: int| 0 <= i < 2048 ==> s0[i] <= 1,
                sprite@.len() <= 16,
                r <= sprite@.len(),
                gx == x as int,
                gy == y as int,
                forall|idx: int|
                    0 <= idx < 2048 ==> self@[idx] == (if covers_before(
                        sprite@,
                        gx,
                        gy,
                        idx,
                        r as int,
                        0,
                    ) {
                        flip(s0[idx])
                    } else {
                        s0[idx]
                    }),
                collision == collides_before(s0, sprite@, gx, gy, r as int, 0),
            decreases sprite@.len() - r,
        {
            let row_byte = sprite[r];
            let mut c: usize = 0;
            while c < 8
                invariant
                    self@.len() == 2048,
                    forall|i: int| 0 <= i < 2048 ==> self@[i] <= 1,
                    s0.len() == 2048,
                    forall|i: int| 0 <= i < 2048 ==> s0[i] <= 1,
                    sprite@.len() <= 16,
                    r < sprite@.len(),
                    c <= 8,
                    gx == x as int,
                    gy == y as int,
                    row_byte == sprite@[r as int],
                    forall|idx: int|
                        0 <= idx < 2048 ==> self@[idx] == (if covers_before(
                            sprite@,
                            gx,
                            gy,
                            idx,
                            r as int,
                            c as int,
                        ) {
                            flip(s0[idx])
                        } else {
                            s0[idx]
                        }),
                    collision == collides_before(s0, sprite@, gx, gy, r as int, c as int),
                decreases 8 - c,
            {
                let bit = (row_byte >> ((7 - c) as u8)) & 1;
                assert(bit == sprite_bit(sprite@[r as int], c as int));
                if bit == 1 {
                    let px: usize = (x as usize + c) % 64;
                    let py: usize = (y as usize + r) % 32;
                    let idx: usize = py * 64 + px;
                    proof {
                        lemma_mod_bound(gx + c, 64);
                        lemma_mod_bound(gy + r, 32);
                        assert(idx as int == pix_index(gx + c, gy + r as int));
                        // The current bit's target has not been touched yet:
                        // every earlier bit lands elsewhere.
                        if covers_before(sprite@, gx, gy, idx as int, r as int, c as int) {
                            let (ri, ci) = choose|ri: int, ci: int|
                                0 <= ri < sprite@.len() && 0 <= ci < 8 && (ri < r as int || (ri
                                    == r as int && ci < c as int)) && sprite_bit(sprite@[ri], ci)
                                    == 1 && #[trigger] pix_index(gx + ci, gy + ri) == idx as int;
                            lemma_pix_inj(gx, gy, ri, ci, r as int, c as int);
                            assert(false);
                        }
                    }
                    let p = self.pixels[idx];
                    assert(p == s0[idx as int]);
                    if p == 1 {
                        collision = true;
                    }
                    self.pixels.set(idx, if p == 1 { 0u8 } else { 1u8 });
                    proof {
                        lemma_collides_step(s0, sprite@, gx, gy, r as int, c as int);
                        assert forall|j: int| 0 <= j < 2048 implies self@[j] == (if covers_before(
                            sprite@,
                            gx,
                            gy,
                            j,
                            r as int,
                            c as int + 1,
                        ) {
                            flip(s0[j])
                        } else {
                            s0[j]
                        }) by {
                            lemma_covers_step(sprite@, gx, gy, j, r as int, c as int);
                        }
                    }
                } else {
                    proof {
                        lemma_collides_step(s0, sprite@, gx, gy, r as int, c as int);
                        assert forall|j: int| 0 <= j < 2048 implies self@[j] == (if covers_before(
                            sprite@,
                            gx,
                            gy,
                            j,
                            r as int,
                            c as int + 1,
                        ) {
                            flip(s0[j])
                        } else {
                            s0[j]
                        }) by {
                            lemma_covers_step(sprite@, gx, gy, j, r as int, c as int);
                        }
                    }
                }
                c = c + 1;
            }
            proof {
                lemma_row_advance_collides(s0, sprite@, gx, gy, r as int);
                assert forall|j: int| 0 <= j < 2048 implies self@[j] == (if covers_before(
                    sprite@,
                    gx,
                    gy,
                    j,
                    r as int + 1,
                    0,
                ) {
                    flip(s0[j])
                } else {
                    s0[j]
                }) by {
                    lemma_row_advance(sprite@, gx, gy, j, r as int);
                }
            }
            r = r + 1;
        }
        proof {
            lemma_covers_complete(s0, sprite@, gx, gy, 0);
            assert forall|j: int| 0 <= j < 2048 implies self@[j] == draw_spec(
                s0,
                sprite@,
                gx,
                gy,
            )[j] by {
                lemma_covers_complete(s0, sprite@, gx, gy, j);
            }
            assert(self@ =~= draw_spec(s0, sprite@, gx, gy));
        }
        collision
    }
}

/// Law: drawing a sprite onto a cleared display sets exactly the pixels
/// the sprite's set bits cover, and reports no collision.
pub proof fn lemma_draw_cleared(s: Seq<u8>, sprite: Seq<u8>, x: int, y: int)
    requires
        s.len() == 2048,
        forall|i: int| 0 <= i < 2048 ==> s[i] == 0u8,
    ensures
        !collides(s, sprite, x, y),
        forall|idx: int|
            0 <= idx < 2048 ==> draw_spec(s, sprite, x, y)[idx] == (if covers(sprite, x, y, idx) {
                1u8
            } else {
                0u8
            }),
{
    if collides(s, sprite, x, y) {
        let (ri, ci) = choose|ri: int, ci: int|
            0 <= ri < sprite.len() && 0 <= ci < 8 && sprite_bit(sprite[ri], ci) == 1
                && s[#[trigger] pix_index(x + ci, y + ri)] == 1;
        lemma_pix_bound(x + ci, y + ri);
        assert(false);
    }
}

/// Law: drawing the same sprite twice at the same position restores the
/// display, and if the first draw turned some pixel on that the sprite
/// covers, the second draw reports a collision.
pub proof fn lemma_draw_twice(s: Seq<u8>, sprite: Seq<u8>, x: int, y: int)
    requires
        s.len() == 2048,
        forall|i: int| 0 <= i < 2048 ==> s[i] <= 1,
    ensures
        draw_spec(draw_spec(s, sprite, x, y), sprite, x, y) == s,
        (exists|r: int, c: int|
            0 <= r < sprite.len() && 0 <= c < 8 && sprite_bit(sprite[r], c) == 1
                && s[#[trigger] pix_index(x + c, y + r)] == 0) ==> collides(
            draw_spec(s, sprite, x, y),
            sprite,
            x,
            y,
        ),
{
    let s1 = draw_spec(s, sprite, x, y);
    let s2 = draw_spec(s1, sprite, x, y);
    assert forall|idx: int| 0 <= idx < 2048 implies s2[idx] == s[idx] by {
        if covers(sprite, x, y, idx) {
            assert(s1[idx] == flip(s[idx]));
            assert(s2[idx] == flip(flip(s[idx])));
        }
    }
    assert(s2 =~= s);
    if exists|r: int, c: int|
        0 <= r < sprite.len() && 0 <= c < 8 && sprite_bit(sprite[r], c) == 1
            && s[#[trigger] pix_index(x + c, y + r)] == 0 {
        let (r, c) = choose|r: int, c: int|
            0 <= r < sprite.len() && 0 <= c < 8 && sprite_bit(sprite[r], c) == 1
                && s[#[trigger] pix_index(x + c, y + r)] == 0;
        let idx = pix_index(x + c, y + r);
        lemma_pix_bound(x + c, y + r);
        assert(covers(sprite, x, y, idx));
        assert(s1[idx] == 1);
        assert(collides(s1, sprite, x, y));
    }
}

} // verus!
