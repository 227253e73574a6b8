use vstd::prelude::*;
use vstd::arithmetic::div_mod::{
    lemma_add_mod_noop_right, lemma_fundamental_div_mod, lemma_fundamental_div_mod_converse,
    lemma_mod_bound, lemma_small_mod, lemma_sub_mod_noop,
};

verus! {

/// The monochrome framebuffer: 32 rows of 64 one-bit pixels, stored row-major
/// (pixel (row, col) at index row * 64 + col), together with the dirty flag
/// that tells the presentation layer that the grid changed. Rendering the
/// grid to a physical surface is not the display's business.
pub struct Display {
    pub gfx: Vec<bool>,
    pub draw_flag: bool,
}

/// Bit `c` of a sprite byte, counted from the most significant end: column 0
/// of a sprite row is bit 7 of its byte.
pub open spec fn byte_bit(b: u8, c: int) -> bool
    recommends
        0 <= c < 8,
{
    (b >> ((7 - c) as u8)) & 1 == 1
}

/// Whether a sprite drawn with its top-left corner at (x0, y0) puts a set bit
/// on the screen pixel (py, px), rows and columns wrapping modulo the grid
/// dimensions.
pub open spec fn sprite_bit_at(sprite: Seq<u8>, x0: int, y0: int, py: int, px: int) -> bool {
    let r = (py - y0) % 32;
    let c = (px - x0) % 64;
    r < sprite.len() && c < 8 && byte_bit(sprite[r], c)
}

/// The framebuffer after XOR-compositing `sprite` at (x0, y0) onto `g`.
pub open spec fn draw_grid(g: Seq<bool>, sprite: Seq<u8>, x0: int, y0: int) -> Seq<bool> {
    Seq::new(2048, |k: int| g[k] ^ sprite_bit_at(sprite, x0, y0, k / 64, k % 64))
}

/// Whether XOR-compositing `sprite` at (x0, y0) onto `g` clears a pixel that
/// was set: the collision the draw instruction reports in register 0xF.
pub open spec fn draw_collision(g: Seq<bool>, sprite: Seq<u8>, x0: int, y0: int) -> bool {
    exists|py: int, px: int|
        0 <= py < 32 && 0 <= px < 64 && g[py * 64 + px] && sprite_bit_at(sprite, x0, y0, py, px)
}

/// An all-clear framebuffer.
pub open spec fn blank_grid() -> Seq<bool> {
    Seq::new(2048, |k: int| false)
}

/// The framebuffer in the middle of a draw: the sprite bits strictly before
/// position `prog` (counting a sprite row `r` and column `c` as `r * 8 + c`)
/// are already composited onto pixel `k`, the later ones are not yet.
#[verifier::opaque]
spec fn partial_pix(g: Seq<bool>, sprite: Seq<u8>, x0: int, y0: int, k: int, prog: int) -> bool {
    let r = (k / 64 - y0) % 32;
    let c = (k % 64 - x0) % 64;
    g[k] ^ (r < sprite.len() && c < 8 && r * 8 + c < prog && byte_bit(sprite[r], c))
}

/// The collision flag in the middle of a draw: some sprite bit strictly
/// before position `prog` is set and lands on a pixel of `g` that was set.
#[verifier::opaque]
spec fn partial_collision(g: Seq<bool>, sprite: Seq<u8>, x0: int, y0: int, prog: int) -> bool {
    exists|r: int, c: int|
        0 <= r < sprite.len() && 0 <= c < 8 && r * 8 + c < prog && g[((y0 + r) % 32) * 64 + (
        (x0 + c) % 64)] && byte_bit(sprite[r], c)
}

/// Wrapping a sprite offset `r` onto the grid and reading the offset back
/// recovers `r`, as long as `r` is smaller than the grid dimension `m`.
proof fn lemma_wrap_round(o: int, r: int, m: int)
    requires
        0 <= r < m,
    ensures
        ((o + r) % m - o) % m == r,
{
    lemma_sub_mod_noop(o + r, o, m);
    lemma_small_mod(r as nat, m as nat);
    assert(((o + r) % m - o % m) % m == r % m);
    let a = (o + r) % m;
    lemma_mod_bound(o + r, m);
    lemma_small_mod(a as nat, m as nat);
    lemma_sub_mod_noop(a, o, m);
}

/// Reading the sprite offset of a grid position `p` and wrapping it back
/// onto the grid recovers `p`, as long as `p` lies on the grid.
proof fn lemma_wrap_inverse(o: int, p: int, m: int)
    requires
        0 <= p < m,
    ensures
        (o + (p - o) % m) % m == p,
{
    lemma_add_mod_noop_right(o, p - o, m);
    lemma_small_mod(p as nat, m as nat);
}

/// A grid index splits uniquely into its row and column.
proof fn lemma_pixel_index(py: int, px: int)
    requires
        0 <= py < 32,
        0 <= px < 64,
    ensures
        (py * 64 + px) / 64 == py,
        (py * 64 + px) % 64 == px,
        0 <= py * 64 + px < 2048,
{
    lemma_fundamental_div_mod_converse(py * 64 + px, 64, py, px);
}

/// One sprite bit at row `r`, column `c` touches exactly the pixel
/// ((y0 + r) % 32, (x0 + c) % 64), and no other grid index reads back the
/// offsets (r, c).
proof fn lemma_target_unique(sprite: Seq<u8>, x0: int, y0: int, r: int, c: int, k: int)
    requires
        sprite.len() <= 32,
        0 <= r < sprite.len(),
        0 <= c < 8,
        0 <= k < 2048,
        (k / 64 - y0) % 32 == r,
        (k % 64 - x0) % 64 == c,
    ensures
        k == ((y0 + r) % 32) * 64 + ((x0 + c) % 64),
{
    let py = k / 64;
    let px = k % 64;
    lemma_fundamental_div_mod(k, 64);
    lemma_mod_bound(k, 64);
    assert(0 <= py < 32) by {
        assert(k == 64 * py + px);
    };
    lemma_wrap_inverse(y0, py, 32);
    lemma_wrap_inverse(x0, px, 64);
    assert((y0 + r) % 32 == py);
    assert((x0 + c) % 64 == px);
}

/// Before any sprite position has been composited, the partial grid is the
/// starting grid and no collision has been seen.
proof fn lemma_partial_init(g: Seq<bool>, sprite: Seq<u8>, x0: int, y0: int)
    ensures
        forall|k: int| 0 <= k < g.len() ==> g[k] == partial_pix(g, sprite, x0, y0, k, 0),
        !partial_collision(g, sprite, x0, y0, 0),
{
    reveal(partial_pix);
    reveal(partial_collision);
}

/// After every sprite position has been composited, the partial grid is the
/// drawn grid and the partial collision flag is the draw's collision report.
proof fn lemma_partial_complete(g: Seq<bool>, sprite: Seq<u8>, x0: int, y0: int)
    requires
        g.len() == 2048,
        sprite.len() <= 32,
    ensures
        forall|k: int|
            0 <= k < 2048 ==> partial_pix(g, sprite, x0, y0, k, sprite.len() as int * 8) == draw_grid(
                g,
                sprite,
                x0,
                y0,
            )[k],
        partial_collision(g, sprite, x0, y0, sprite.len() as int * 8) == draw_collision(g, sprite, x0, y0),
{
    reveal(partial_pix);
    reveal(partial_collision);
    let n = sprite.len() as int;
    assert forall|k: int| 0 <= k < 2048 implies partial_pix(g, sprite, x0, y0, k, n * 8)
        == draw_grid(g, sprite, x0, y0)[k] by {
        let r = (k / 64 - y0) % 32;
        let c = (k % 64 - x0) % 64;
        if r < n && c < 8 {
            assert(r * 8 + c < n * 8) by {
                assert(r <= n - 1);
                assert(r * 8 <= (n - 1) * 8) by (nonlinear_arith)
                    requires
                        r <= n - 1,
                ;
            };
        }
    };
    if partial_collision(g, sprite, x0, y0, n * 8) {
        let (r, c) = choose|r: int, c: int|
            0 <= r < sprite.len() && 0 <= c < 8 && r * 8 + c < n * 8 && g[((y0 + r) % 32) * 64 + (
            (x0 + c) % 64)] && byte_bit(sprite[r], c);
        let py = (y0 + r) % 32;
        let px = (x0 + c) % 64;
        lemma_mod_bound(y0 + r, 32);
        lemma_mod_bound(x0 + c, 64);
        lemma_wrap_round(y0, r, 32);
        lemma_wrap_round(x0, c, 64);
        assert(sprite_bit_at(sprite, x0, y0, py, px));
        assert(draw_collision(g, sprite, x0, y0));
    }
    if draw_collision(g, sprite, x0, y0) {
        let (py, px) = choose|py: int, px: int|
            0 <= py < 32 && 0 <= px < 64 && g[py * 64 + px] && sprite_bit_at(
                sprite,
                x0,
                y0,
                py,
                px,
            );
        let r = (py - y0) % 32;
        let c = (px - x0) % 64;
        lemma_mod_bound(py - y0, 32);
        lemma_mod_bound(px - x0, 64);
        lemma_wrap_inverse(y0, py, 32);
        lemma_wrap_inverse(x0, px, 64);
        assert(r * 8 + c < n * 8) by {
            assert(r <= n - 1);
            assert(r * 8 <= (n - 1) * 8) by (nonlinear_arith)
                requires
                    r <= n - 1,
            ;
        };
        assert(g[((y0 + r) % 32) * 64 + ((x0 + c) % 64)] && byte_bit(sprite[r], c));
        assert(partial_collision(g, sprite, x0, y0, n * 8));
    }
}

/// Compositing the sprite bit at row `r`, column `c` onto the partial grid
/// advances the partial grid and the partial collision flag by one position.
proof fn lemma_partial_step(
    g0: Seq<bool>,
    g: Seq<bool>,
    g2: Seq<bool>,
    col: bool,
    col2: bool,
    sprite: Seq<u8>,
    x0: int,
    y0: int,
    r: int,
    c: int,
)
    requires
        g0.len() == 2048,
        g.len() == 2048,
        sprite.len() <= 32,
        0 <= r < sprite.len(),
        0 <= c < 8,
        forall|k: int| 0 <= k < 2048 ==> g[k] == partial_pix(g0, sprite, x0, y0, k, r * 8 + c),
        col == partial_collision(g0, sprite, x0, y0, r * 8 + c),
        g2 == (if byte_bit(sprite[r], c) {
            g.update(
                ((y0 + r) % 32) * 64 + ((x0 + c) % 64),
                !g[((y0 + r) % 32) * 64 + ((x0 + c) % 64)],
            )
        } else {
            g
        }),
        col2 == (col || (g[((y0 + r) % 32) * 64 + ((x0 + c) % 64)] && byte_bit(sprite[r], c))),
    ensures
        forall|k: int| 0 <= k < 2048 ==> g2[k] == partial_pix(g0, sprite, x0, y0, k, r * 8 + c + 1),
        col2 == partial_collision(g0, sprite, x0, y0, r * 8 + c + 1),
{
    reveal(partial_pix);
    reveal(partial_collision);
    let py = (y0 + r) % 32;
    let px = (x0 + c) % 64;
    lemma_mod_bound(y0 + r, 32);
    lemma_mod_bound(x0 + c, 64);
    let k0 = py * 64 + px;
    lemma_pixel_index(py, px);
    lemma_wrap_round(y0, r, 32);
    lemma_wrap_round(x0, c, 64);
    assert((k0 / 64 - y0) % 32 == r);
    assert((k0 % 64 - x0) % 64 == c);
    // the sprite position (r, c) itself is not yet composited at k0
    assert(g[k0] == g0[k0]);
    let bit = byte_bit(sprite[r], c);
    assert forall|k: int| 0 <= k < 2048 implies g2[k] == partial_pix(
        g0,
        sprite,
        x0,
        y0,
        k,
        r * 8 + c + 1,
    ) by {
        let rk = (k / 64 - y0) % 32;
        let ck = (k % 64 - x0) % 64;
        if k == k0 {
            assert(g2[k0] == g0[k0] ^ bit);
        } else {
            // k is untouched, and its sprite position is not (r, c)
            if rk < sprite.len() && ck < 8 && rk * 8 + ck == r * 8 + c {
                lemma_mod_bound(k / 64 - y0, 32);
                lemma_mod_bound(k % 64 - x0, 64);
                assert(rk == r && ck == c);
                lemma_target_unique(sprite, x0, y0, rk, ck, k);
                assert(false);
            }
        }
    };
    let prog = r * 8 + c;
    if col2 {
        if col {
            let (ra, ca) = choose|ra: int, ca: int|
                0 <= ra < sprite.len() && 0 <= ca < 8 && ra * 8 + ca < prog && g0[((y0 + ra) % 32)
                    * 64 + ((x0 + ca) % 64)] && byte_bit(sprite[ra], ca);
            assert(ra * 8 + ca < prog + 1);
            assert(partial_collision(g0, sprite, x0, y0, prog + 1));
        } else {
            assert(g0[((y0 + r) % 32) * 64 + ((x0 + c) % 64)] && byte_bit(sprite[r], c));
            assert(partial_collision(g0, sprite, x0, y0, prog + 1));
        }
    }
    if partial_collision(g0, sprite, x0, y0, prog + 1) {
        let (ra, ca) = choose|ra: int, ca: int|
            0 <= ra < sprite.len() && 0 <= ca < 8 && ra * 8 + ca < prog + 1 && g0[((y0 + ra) % 32)
                * 64 + ((x0 + ca) % 64)] && byte_bit(sprite[ra], ca);
        if ra * 8 + ca < prog {
            assert(col);
        } else {
            assert(ra == r && ca == c);
            assert(g[k0] && bit);
        }
    }
}

impl Display {
    /// The whole grid exists: exactly 32 * 64 pixels.
    pub open spec fn wf(&self) -> bool {
        self.gfx@.len() == 2048
    }

    /// A fresh display: every pixel off, and a redraw pending.
    pub fn new() -> (display: Display)
        ensures
            display.wf(),
            display.gfx@ == blank_grid(),
            display.draw_flag,
    {
        let mut gfx: Vec<bool> = Vec::new();
        let mut k: usize = 0;
        while k < 2048
            invariant
                k <= 2048,
                gfx@.len() == k,
                forall|j: int| 0 <= j < k ==> !gfx@[j],
            decreases 2048 - k,
        {
            gfx.push(false);
            k = k + 1;
        }
        proof {
            assert(gfx@ =~= blank_grid());
        }
        Display { gfx, draw_flag: true }
    }

    /// Turns every pixel off and marks the grid dirty.
    pub fn clear(&mut self)
        requires
            old(self).wf(),
        ensures
            final(self).wf(),
            final(self).gfx@ == blank_grid(),
            final(self).draw_flag,
    {
        let mut k: usize = 0;
        while k < 2048
            invariant
                k <= 2048,
                self.gfx@.len() == 2048,
                forall|j: int| 0 <= j < k ==> !self.gfx@[j],
            decreases 2048 - k,
        {
            self.gfx.set(k, false);
            k = k + 1;
        }
        self.draw_flag = true;
        proof {
            assert(self.gfx@ =~= blank_grid());
        }
    }

    /// XOR-composites `sprite` onto the grid with its top-left corner at
    /// (x0, y0), wrapping rows and columns modulo the grid dimensions, marks
    /// the grid dirty, and reports whether any previously set pixel was
    /// cleared.
    #[verifier::rlimit(60)]
    pub fn draw(&mut self, x0: u8, y0: u8, sprite: &Vec<u8>) -> (collision: bool)
        requires
            old(self).wf(),
            sprite@.len() <= 32,
        ensures
            final(self).wf(),
            final(self).gfx@ == draw_grid(old(self).gfx@, sprite@, x0 as int, y0 as int),
            collision == draw_collision(old(self).gfx@, sprite@, x0 as int, y0 as int),
            final(self).draw_flag,
    {
        let ghost g0 = self.gfx@;
        let ghost xi = x0 as int;
        let ghost yi = y0 as int;
        proof {
            lemma_partial_init(g0, sprite@, xi, yi);
        }
        let mut collision = false;
        let mut r: usize = 0;
        while r < sprite.len()
            invariant
                r <= sprite@.len(),
                sprite@.len() <= 32,
                xi == x0 as int,
                yi == y0 as int,
                self.gfx@.len() == 2048,
                g0.len() == 2048,
                forall|k: int|
                    0 <= k < 2048 ==> self.gfx@[k] == partial_pix(g0, sprite@, xi, yi, k, r * 8),
                collision == partial_collision(g0, sprite@, xi, yi, r * 8),
            decreases sprite@.len() - r,
        {
            let byte = sprite[r];
            let mut c: usize = 0;
            while c < 8
                invariant
                    r < sprite@.len(),
                    sprite@.len() <= 32,
                    c <= 8,
                    xi == x0 as int,
                    yi == y0 as int,
                    byte == sprite@[r as int],
                    self.gfx@.len() == 2048,
                    g0.len() == 2048,
                    forall|k: int|
                        0 <= k < 2048 ==> self.gfx@[k] == partial_pix(
                            g0,
                            sprite@,
                            xi,
                            yi,
                            k,
                            r * 8 + c,
                        ),
                    collision == partial_collision(g0, sprite@, xi, yi, r * 8 + c),
                decreases 8 - c,
            {
                let ghost gpre = self.gfx@;
                let ghost colpre = collision;
                let py = ((y0 as usize) + r) % 32;
                let px = ((x0 as usize) + c) % 64;
                let shift: u8 = (7 - c) as u8;
                let bit = ((byte >> shift) & 1) == 1;
                let idx = py * 64 + px;
                proof {
                    assert(py == (yi + r) % 32);
                    assert(px == (xi + c) % 64);
                    assert(idx == ((yi + r) % 32) * 64 + ((xi + c) % 64));
                    assert(bit == byte_bit(sprite@[r as int], c as int));
                }
                let cur = self.gfx[idx];
                if bit {
                    if cur {
                        collision = true;
                    }
                    self.gfx.set(idx, !cur);
                }
                proof {
                    assert(cur == gpre[idx as int]);
                    lemma_partial_step(
                        g0,
                        gpre,
                        self.gfx@,
                        colpre,
                        collision,
                        sprite@,
                        xi,
                        yi,
                        r as int,
                        c as int,
                    );
                }
                c = c + 1;
            }
            r = r + 1;
        }
        self.draw_flag = true;
        proof {
            lemma_partial_complete(g0, sprite@, xi, yi);
            assert(self.gfx@ =~= draw_grid(g0, sprite@, xi, yi));
        }
        collision
    }
}

/// Drawing one sprite twice at one location on a cleared display undoes
/// every pixel the first draw set: the first draw reports no collision, the
/// second reports one (the sprite has at least one set bit), and the grid is
/// blank again afterwards.
pub proof fn lemma_draw_twice_clears(sprite: Seq<u8>, x0: int, y0: int)
    requires
        sprite.len() <= 32,
        exists|r: int, c: int| 0 <= r < sprite.len() && 0 <= c < 8 && byte_bit(sprite[r], c),
    ensures
        !draw_collision(blank_grid(), sprite, x0, y0),
        draw_collision(draw_grid(blank_grid(), sprite, x0, y0), sprite, x0, y0),
        draw_grid(draw_grid(blank_grid(), sprite, x0, y0), sprite, x0, y0) == blank_grid(),
{
    let g0 = blank_grid();
    let g1 = draw_grid(g0, sprite, x0, y0);
    assert(!draw_collision(g0, sprite, x0, y0));
    let (r, c) = choose|r: int, c: int|
        0 <= r < sprite.len() && 0 <= c < 8 && byte_bit(sprite[r], c);
    let py = (y0 + r) % 32;
    let px = (x0 + c) % 64;
    lemma_mod_bound(y0 + r, 32);
    lemma_mod_bound(x0 + c, 64);
    lemma_pixel_index(py, px);
    lemma_wrap_round(y0, r, 32);
    lemma_wrap_round(x0, c, 64);
    assert(sprite_bit_at(sprite, x0, y0, py, px));
    assert(g1[py * 64 + px]);
    assert(draw_collision(g1, sprite, x0, y0));
    assert(draw_grid(g1, sprite, x0, y0) =~= g0);
}

} // verus!
