//! The in-memory display: a 64 by 32 grid of cells written by XOR sprite
//! blitting, with per-draw collision detection.
//!
//! A sprite is a run of bytes; each byte is one row of eight bits, most
//! significant bit leftmost.  A set bit flips its cell; a flip that unsets a
//! previously set cell raises the draw's collision flag.  Pixels falling
//! outside the grid are clipped: they are not drawn and cannot collide.

use vstd::prelude::*;
use crate::Display;

verus! {

/// Bit `ix` of a sprite row byte, most significant bit first.
pub open spec fn bit_of(byte: u8, ix: int) -> bool {
    (byte >> ((7 - ix) as u8)) & 1u8 == 1u8
}

/// Bit `ix` of sprite row `iy`.
pub open spec fn sprite_bit(data: Seq<u8>, iy: int, ix: int) -> bool {
    bit_of(data[iy], ix)
}

/// One cell of the grid after blitting `data` at `(x, y)`: inside the
/// sprite's footprint the cell is XOR-ed with its sprite bit, elsewhere it is
/// unchanged.
pub open spec fn cell_after(
    g: Seq<Seq<bool>>,
    x: int,
    y: int,
    data: Seq<u8>,
    cx: int,
    cy: int,
) -> bool {
    if x <= cx < x + 8 && y <= cy < y + data.len() {
        g[cx][cy] != sprite_bit(data, cy - y, cx - x)
    } else {
        g[cx][cy]
    }
}

/// The whole grid after blitting `data` at `(x, y)`, clipped to 64 by 32.
pub open spec fn blit(g: Seq<Seq<bool>>, x: int, y: int, data: Seq<u8>) -> Seq<Seq<bool>> {
    Seq::new(64, |cx: int| Seq::new(32, |cy: int| cell_after(g, x, y, data, cx, cy)))
}

/// Whether blitting `data` at `(x, y)` unsets some previously set cell: a set
/// sprite bit falling, in bounds, on a set cell.
pub open spec fn collides(g: Seq<Seq<bool>>, x: int, y: int, data: Seq<u8>) -> bool {
    exists|iy: int, ix: int|
        0 <= iy < data.len() && 0 <= ix < 8 && x + ix < 64 && y + iy < 32 && sprite_bit(
            data,
            iy,
            ix,
        ) && g[x + ix][y + iy]
}

/// The collision flag a draw call reports: 1 when some cell was unset, else 0.
pub open spec fn collision_flag(g: Seq<Seq<bool>>, x: int, y: int, data: Seq<u8>) -> u8 {
    if collides(g, x, y, data) {
        1u8
    } else {
        0u8
    }
}

/// The all-unset grid.
pub open spec fn blank_grid() -> Seq<Seq<bool>> {
    Seq::new(64, |cx: int| Seq::new(32, |cy: int| false))
}

/// The eight bits of one sprite row byte, most significant first, each 0 or 1.
pub fn bitarray(byte: u8) -> (r: Vec<u8>)
    ensures
        r@.len() == 8,
        forall|j: int|
            0 <= j < 8 ==> r@[j] == (if bit_of(byte, j) {
                1u8
            } else {
                0u8
            }),
{
    let mut s: Vec<u8> = Vec::new();
    let mut n: usize = 0;
    while n < 8
        invariant
            0 <= n <= 8,
            s@.len() == n,
            forall|j: int|
                0 <= j < n ==> s@[j] == (if bit_of(byte, j) {
                    1u8
                } else {
                    0u8
                }),
        decreases 8 - n,
    {
        let sh = (7 - n) as u8;
        let b = (byte >> sh) & 1;
        proof {
            assert((byte >> sh) & 1u8 == 0u8 || (byte >> sh) & 1u8 == 1u8) by (bit_vector);
        }
        s.push(b);
        n = n + 1;
    }
    s
}

/// Which processed sprite pixel, in row-major draw order up to row `iy`,
/// column `ix`, covers cell `(cx, cy)`.
spec fn covered(x: int, y: int, len: int, iy: int, ix: int, cx: int, cy: int) -> bool {
    x <= cx < x + 8 && y <= cy < y + len && (cy - y < iy || (cy - y == iy && cx - x < ix))
}

/// The expected value of flat cell `k` when the draw has processed all sprite
/// pixels before row `iy`, column `ix`.
spec fn pcell(g0: Seq<Seq<bool>>, x: int, y: int, data: Seq<u8>, iy: int, ix: int, k: int) -> bool {
    let cx = k / 32;
    let cy = k % 32;
    if covered(x, y, data.len() as int, iy, ix, cx, cy) {
        g0[cx][cy] != sprite_bit(data, cy - y, cx - x)
    } else {
        g0[cx][cy]
    }
}

/// Whether some sprite pixel before row `iy`, column `ix` collided.
spec fn pcoll(g0: Seq<Seq<bool>>, x: int, y: int, data: Seq<u8>, iy: int, ix: int) -> bool {
    exists|jy: int, jx: int|
        0 <= jy < data.len() && 0 <= jx < 8 && (jy < iy || (jy == iy && jx < ix)) && x + jx < 64 && y
            + jy < 32 && sprite_bit(data, jy, jx) && g0[x + jx][y + jy]
}

/// A fresh vector of 2048 unset cells.
fn blank_cells() -> (v: Vec<bool>)
    ensures
        v@.len() == 2048,
        forall|k: int| 0 <= k < 2048 ==> v@[k] == false,
{
    let mut v: Vec<bool> = Vec::new();
    let mut k: usize = 0;
    while k < 2048
        invariant
            0 <= k <= 2048,
            v@.len() == k,
            forall|j: int| 0 <= j < k ==> v@[j] == false,
        decreases 2048 - k,
    {
        v.push(false);
        k = k + 1;
    }
    v
}

/// The in-memory cell grid a terminal renderer mirrors to the screen.
pub struct Console {
    cells: Vec<bool>,
}

impl View for Console {
    type V = Seq<Seq<bool>>;

    /// The grid, column-major: `console@[x][y]`.
    closed spec fn view(&self) -> Seq<Seq<bool>> {
        Seq::new(64, |cx: int| Seq::new(32, |cy: int| self.cells@[cx * 32 + cy]))
    }
}

impl Console {
    /// The backing store spans exactly 64 by 32 cells.
    pub closed spec fn wf(&self) -> bool {
        self.cells@.len() == 2048
    }

    /// A fresh console: every cell unset.
    pub fn new() -> (c: Console)
        ensures
            c.wf(),
            c@ == blank_grid(),
    {
        let c = Console { cells: blank_cells() };
        proof {
            assert forall|cx: int, cy: int| 0 <= cx < 64 && 0 <= cy < 32 implies c@[cx][cy]
                == blank_grid()[cx][cy] by {
                assert(0 <= cx * 32 + cy < 2048) by (nonlinear_arith)
                    requires
                        0 <= cx < 64,
                        0 <= cy < 32,
                ;
            }
            assert(c@ =~~= blank_grid());
        }
        c
    }

    /// Read one cell.
    pub fn pixel(&self, x: usize, y: usize) -> (b: bool)
        requires
            self.wf(),
            x < 64,
            y < 32,
        ensures
            b == self@[x as int][y as int],
    {
        proof {
            assert(0 <= (x as int) * 32 + (y as int) < 2048) by (nonlinear_arith)
                requires
                    0 <= x < 64,
                    0 <= y < 32,
            ;
        }
        self.cells[x * 32 + y]
    }

    /// Unset every cell.
    pub fn clear(&mut self)
        requires
            old(self).wf(),
        ensures
            final(self).wf(),
            final(self)@ == blank_grid(),
    {
        self.cells = blank_cells();
        proof {
            assert forall|cx: int, cy: int| 0 <= cx < 64 && 0 <= cy < 32 implies self@[cx][cy]
                == blank_grid()[cx][cy] by {
                assert(0 <= cx * 32 + cy < 2048) by (nonlinear_arith)
                    requires
                        0 <= cx < 64,
                        0 <= cy < 32,
                ;
            }
            assert(self@ =~~= blank_grid());
        }
    }

    /// Blit one sprite at `(x, y)`: each set bit flips its cell, pixels
    /// outside the grid are clipped, and the returned flag is 1 exactly when
    /// some flip unset a previously set cell.
    pub fn draw(&mut self, x: u8, y: u8, data: Vec<u8>) -> (r: Result<u8, ()>)
        requires
            old(self).wf(),
        ensures
            final(self).wf(),
            final(self)@ == blit(old(self)@, x as int, y as int, data@),
            r == Ok::<u8, ()>(collision_flag(old(self)@, x as int, y as int, data@)),
    {
        let ghost g0 = self@;
        let ghost xi = x as int;
        let ghost yi = y as int;
        let x = x as usize;
        let y = y as usize;
        let mut vf: u8 = 0;
        let mut iy: usize = 0;
        proof {
            assert forall|k: int| 0 <= k < 2048 implies self.cells@[k] == pcell(
                g0,
                xi,
                yi,
                data@,
                0,
                0,
                k,
            ) by {
                lemma_flat_index(k);
            }
        }
        while iy < data.len()
            invariant
                0 <= iy <= data@.len(),
                x == xi,
                y == yi,
                x < 256,
                y < 256,
                self.cells@.len() == 2048,
                forall|k: int|
                    0 <= k < 2048 ==> self.cells@[k] == pcell(g0, xi, yi, data@, iy as int, 0, k),
                vf == 0 || vf == 1,
                vf == 1 <==> pcoll(g0, xi, yi, data@, iy as int, 0),
            decreases data@.len() - iy,
        {
            let next = bitarray(data[iy]);
            let mut ix: usize = 0;
            while ix < 8
                invariant
                    0 <= ix <= 8,
                    0 <= iy < data@.len(),
                    x == xi,
                    y == yi,
                    x < 256,
                    y < 256,
                    next@.len() == 8,
                    forall|j: int|
                        0 <= j < 8 ==> next@[j] == (if sprite_bit(data@, iy as int, j) {
                            1u8
                        } else {
                            0u8
                        }),
                    self.cells@.len() == 2048,
                    forall|k: int|
                        0 <= k < 2048 ==> self.cells@[k] == pcell(
                            g0,
                            xi,
                            yi,
                            data@,
                            iy as int,
                            ix as int,
                            k,
                        ),
                    vf == 0 || vf == 1,
                    vf == 1 <==> pcoll(g0, xi, yi, data@, iy as int, ix as int),
                decreases 8 - ix,
            {
                let ghost cells0 = self.cells@;
                let ghost vf0 = vf;
                if x + ix < 64 && iy < 32 && y + iy < 32 {
                    let k = (x + ix) * 32 + (y + iy);
                    proof {
                        lemma_flat_coords(xi + ix, yi + iy);
                    }
                    let cb = self.cells[k];
                    let nb = next[ix];
                    if nb == 1 {
                        if cb {
                            vf = 1;
                            self.cells[k] = false;
                        } else {
                            self.cells[k] = true;
                        }
                    }
                }
                proof {
                    assert forall|k: int| 0 <= k < 2048 implies self.cells@[k] == pcell(
                        g0,
                        xi,
                        yi,
                        data@,
                        iy as int,
                        ix as int + 1,
                        k,
                    ) by {
                        lemma_flat_index(k);
                    }
                    assert(vf == 1 <==> pcoll(g0, xi, yi, data@, iy as int, ix as int + 1)) by {
                        if vf0 == 1 {
                            assert(pcoll(g0, xi, yi, data@, iy as int, ix as int + 1));
                        }
                        if vf == 1 && vf0 == 0 {
                            assert(xi + ix < 64 && yi + iy < 32 && sprite_bit(
                                data@,
                                iy as int,
                                ix as int,
                            ) && g0[xi + ix][yi + iy]);
                            assert(pcoll(g0, xi, yi, data@, iy as int, ix as int + 1));
                        }
                        if pcoll(g0, xi, yi, data@, iy as int, ix as int + 1) && vf == 0 {
                            let (jy, jx) = choose|jy: int, jx: int|
                                0 <= jy < data@.len() && 0 <= jx < 8 && (jy < iy as int || (jy
                                    == iy as int && jx < ix as int + 1)) && xi + jx < 64 && yi + jy
                                    < 32 && sprite_bit(data@, jy, jx) && g0[xi + jx][yi + jy];
                            if jy == iy as int && jx == ix as int {
                                lemma_flat_coords(xi + ix, yi + iy);
                                assert(cells0[(xi + ix) * 32 + (yi + iy)] == pcell(
                                    g0,
                                    xi,
                                    yi,
                                    data@,
                                    iy as int,
                                    ix as int,
                                    (xi + ix) * 32 + (yi + iy),
                                ));
                                assert(false);
                            } else {
                                assert(pcoll(g0, xi, yi, data@, iy as int, ix as int));
                                assert(false);
                            }
                        }
                    }
                }
                ix = ix + 1;
            }
            proof {
                assert forall|k: int| 0 <= k < 2048 implies self.cells@[k] == pcell(
                    g0,
                    xi,
                    yi,
                    data@,
                    iy as int + 1,
                    0,
                    k,
                ) by {
                    lemma_flat_index(k);
                }
                assert(pcoll(g0, xi, yi, data@, iy as int, 8) == pcoll(
                    g0,
                    xi,
                    yi,
                    data@,
                    iy as int + 1,
                    0,
                )) by {
                    if pcoll(g0, xi, yi, data@, iy as int, 8) {
                        assert(pcoll(g0, xi, yi, data@, iy as int + 1, 0));
                    }
                    if pcoll(g0, xi, yi, data@, iy as int + 1, 0) {
                        assert(pcoll(g0, xi, yi, data@, iy as int, 8));
                    }
                }
            }
            iy = iy + 1;
        }
        proof {
            assert forall|cx: int, cy: int| 0 <= cx < 64 && 0 <= cy < 32 implies self@[cx][cy]
                == blit(g0, xi, yi, data@)[cx][cy] by {
                lemma_flat_coords(cx, cy);
                assert(self.cells@[cx * 32 + cy] == pcell(
                    g0,
                    xi,
                    yi,
                    data@,
                    data@.len() as int,
                    0,
                    cx * 32 + cy,
                ));
            }
            assert(self@ =~~= blit(g0, xi, yi, data@));
            assert(vf == collision_flag(g0, xi, yi, data@)) by {
                if vf == 1 {
                    assert(collides(g0, xi, yi, data@));
                }
                if collides(g0, xi, yi, data@) {
                    assert(pcoll(g0, xi, yi, data@, data@.len() as int, 0));
                }
            }
        }
        Ok(vf)
    }
}

/// Flat index arithmetic: a flat cell index decomposes into unique grid
/// coordinates.
proof fn lemma_flat_index(k: int)
    requires
        0 <= k < 2048,
    ensures
        0 <= k / 32 < 64,
        0 <= k % 32 < 32,
        k == (k / 32) * 32 + (k % 32),
{
    assert(0 <= k / 32 < 64 && 0 <= k % 32 < 32 && k == (k / 32) * 32 + (k % 32))
        by (nonlinear_arith)
        requires
            0 <= k < 2048,
    ;
}

/// Flat index arithmetic: grid coordinates give a flat index that decomposes
/// back into them.
proof fn lemma_flat_coords(cx: int, cy: int)
    requires
        0 <= cx < 64,
        0 <= cy < 32,
    ensures
        0 <= cx * 32 + cy < 2048,
        (cx * 32 + cy) / 32 == cx,
        (cx * 32 + cy) % 32 == cy,
{
    assert(0 <= cx * 32 + cy < 2048 && (cx * 32 + cy) / 32 == cx && (cx * 32 + cy) % 32 == cy)
        by (nonlinear_arith)
        requires
            0 <= cx < 64,
            0 <= cy < 32,
    ;
}

/// Drawing the identical sprite at the identical position twice in a row
/// restores every cell to its state before the first draw.  The second call's
/// collision flag is 1 exactly when some set sprite bit lands, in bounds, on
/// a cell that was unset before the first draw: the first draw set exactly
/// those cells, and the second unsets them again.
pub proof fn lemma_draw_twice_restores(g: Seq<Seq<bool>>, x: int, y: int, data: Seq<u8>)
    requires
        g.len() == 64,
        forall|cx: int| 0 <= cx < 64 ==> (#[trigger] g[cx]).len() == 32,
        0 <= x,
        0 <= y,
    ensures
        blit(blit(g, x, y, data), x, y, data) == g,
        collides(blit(g, x, y, data), x, y, data) <==> (exists|iy: int, ix: int|
            0 <= iy < data.len() && 0 <= ix < 8 && x + ix < 64 && y + iy < 32 && sprite_bit(
                data,
                iy,
                ix,
            ) && !g[x + ix][y + iy]),
{
    let g1 = blit(g, x, y, data);
    assert forall|cx: int, cy: int| 0 <= cx < 64 && 0 <= cy < 32 implies blit(g1, x, y, data)[cx][
        cy
    ] == g[cx][cy] by {
        assert(g1[cx][cy] == cell_after(g, x, y, data, cx, cy));
    }
    assert(blit(g1, x, y, data) =~~= g);
    if collides(g1, x, y, data) {
        let (iy, ix) = choose|iy: int, ix: int|
            0 <= iy < data.len() && 0 <= ix < 8 && x + ix < 64 && y + iy < 32 && sprite_bit(
                data,
                iy,
                ix,
            ) && g1[x + ix][y + iy];
        assert(g1[x + ix][y + iy] == cell_after(g, x, y, data, x + ix, y + iy));
        assert(!g[x + ix][y + iy]);
    }
    if exists|iy: int, ix: int|
        0 <= iy < data.len() && 0 <= ix < 8 && x + ix < 64 && y + iy < 32 && sprite_bit(
            data,
            iy,
            ix,
        ) && !g[x + ix][y + iy] {
        let (iy, ix) = choose|iy: int, ix: int|
            0 <= iy < data.len() && 0 <= ix < 8 && x + ix < 64 && y + iy < 32 && sprite_bit(
                data,
                iy,
                ix,
            ) && !g[x + ix][y + iy];
        assert(g1[x + ix][y + iy] == cell_after(g, x, y, data, x + ix, y + iy));
        assert(g1[x + ix][y + iy]);
        assert(collides(g1, x, y, data));
    }
}

/// The adaptor the driver hands the engine: it forwards draw and clear calls
/// to the in-memory console, whose grid the renderer then mirrors.
pub struct DisplayAdaptor {
    /// The wrapped console, read by the renderer after each tick.
    pub console: Console,
}

impl DisplayAdaptor {
    /// Wrap a console.
    pub fn new(console: Console) -> (d: DisplayAdaptor)
        ensures
            d.console == console,
    {
        DisplayAdaptor { console }
    }
}

impl Display for DisplayAdaptor {
    open spec fn grid(&self) -> Seq<Seq<bool>> {
        self.console@
    }

    open spec fn wf(&self) -> bool {
        self.console.wf()
    }

    fn draw(&mut self, x: u8, y: u8, data: Vec<u8>) -> (r: Result<u8, ()>) {
        self.console.draw(x, y, data)
    }

    fn clear(&mut self) {
        self.console.clear()
    }
}

} // verus!
