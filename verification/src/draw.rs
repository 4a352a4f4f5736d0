//! Sprite drawing: the executable XOR-toggle loops, proved against the
//! pointwise `draw_display` / `draw_collision` model. The key fact is that
//! within one draw no two sprite bits land on the same cell, so toggling
//! cell by cell agrees with the pointwise description.

use vstd::prelude::*;

use crate::model::{
    bit_set, draw_collision, draw_display, draw_index, sprite_hit, DISPLAY_CELLS, DISPLAY_HEIGHT,
    DISPLAY_WIDTH, MEMORY_SIZE,
};

verus! {

/// Whether a sprite bit strictly before position (`row`, `col`) — in the
/// order the drawing loops visit: row-major, leftmost bit first — lands on
/// cell `idx`.
pub open spec fn hit_before(
    mem: Seq<u8>,
    i: int,
    vx: u8,
    vy: u8,
    row: int,
    col: int,
    idx: int,
) -> bool {
    exists|r: int, c: int|
        0 <= r && 0 <= c < 8 && (r < row || (r == row && c < col)) && bit_set(mem[i + r], c)
            && #[trigger] draw_index(vx, vy, c, r) == idx
}

/// Every cell a sprite bit can land on lies inside the framebuffer.
proof fn lemma_draw_index_bounds(vx: u8, vy: u8, col: int, row: int)
    requires
        0 <= col,
        0 <= row,
    ensures
        0 <= draw_index(vx, vy, col, row) < DISPLAY_CELLS,
{
}

/// If two displacements below the modulus shift a common base to the same
/// residue, they are the same displacement.
proof fn lemma_mod_window(a: int, d1: int, d2: int, m: int)
    requires
        m > 0,
        a >= 0,
        0 <= d1 < m,
        0 <= d2 < m,
        (a + d1) % m == (a + d2) % m,
    ensures
        d1 == d2,
{
    let q1 = (a + d1) / m;
    let q2 = (a + d2) / m;
    vstd::arithmetic::div_mod::lemma_fundamental_div_mod(a + d1, m);
    vstd::arithmetic::div_mod::lemma_fundamental_div_mod(a + d2, m);
    assert(d1 - d2 == m * (q1 - q2)) by (nonlinear_arith)
        requires
            a + d1 == m * q1 + (a + d1) % m,
            a + d2 == m * q2 + (a + d2) % m,
            (a + d1) % m == (a + d2) % m,
    ;
    assert(q1 == q2) by (nonlinear_arith)
        requires
            d1 - d2 == m * (q1 - q2),
            -m < d1 - d2 < m,
            m > 0,
    ;
}

/// Distinct sprite-bit positions of one draw land on distinct cells: the
/// rows stay within one vertical wrap and the columns within one
/// horizontal wrap.
proof fn lemma_cells_distinct(vx: u8, vy: u8, c1: int, r1: int, c2: int, r2: int)
    requires
        0 <= c1 < 8,
        0 <= c2 < 8,
        0 <= r1 < 16,
        0 <= r2 < 16,
        draw_index(vx, vy, c1, r1) == draw_index(vx, vy, c2, r2),
    ensures
        c1 == c2,
        r1 == r2,
{
    let w = DISPLAY_WIDTH as int;
    let h = DISPLAY_HEIGHT as int;
    let a1 = (vx + c1) % w;
    let b1 = (vy + r1) % h;
    let a2 = (vx + c2) % w;
    let b2 = (vy + r2) % h;
    assert(a1 + b1 * w == a2 + b2 * w);
    assert(0 <= a1 < w && 0 <= a2 < w);
    assert(b1 == b2);
    assert(a1 == a2);
    lemma_mod_window(vx as int, c1, c2, w);
    lemma_mod_window(vy as int, r1, r2, h);
}

/// The cell that the bit at (`row`, `col`) lands on was not hit by any
/// earlier bit of the same draw.
proof fn lemma_fresh_cell(mem: Seq<u8>, i: int, vx: u8, vy: u8, row: int, col: int)
    requires
        0 <= row < 16,
        0 <= col < 8,
    ensures
        !hit_before(mem, i, vx, vy, row, col, draw_index(vx, vy, col, row)),
{
    let idx = draw_index(vx, vy, col, row);
    if hit_before(mem, i, vx, vy, row, col, idx) {
        let (r, c) = choose|r: int, c: int|
            0 <= r && 0 <= c < 8 && (r < row || (r == row && c < col)) && bit_set(mem[i + r], c)
                && #[trigger] draw_index(vx, vy, c, r) == idx;
        assert(r < 16);
        lemma_cells_distinct(vx, vy, c, r, col, row);
        assert(false);
    }
}

/// Advancing the scan by one bit adds exactly that bit's cell (when the
/// bit is set) to the set of hit cells.
proof fn lemma_hit_step(mem: Seq<u8>, i: int, vx: u8, vy: u8, row: int, col: int, idx: int)
    requires
        0 <= col < 8,
    ensures
        hit_before(mem, i, vx, vy, row, col + 1, idx) == (hit_before(mem, i, vx, vy, row, col, idx)
            || (bit_set(mem[i + row], col) && 0 <= row && draw_index(vx, vy, col, row) == idx)),
{
    if hit_before(mem, i, vx, vy, row, col + 1, idx) {
        let (r, c) = choose|r: int, c: int|
            0 <= r && 0 <= c < 8 && (r < row || (r == row && c < col + 1)) && bit_set(
                mem[i + r],
                c,
            ) && #[trigger] draw_index(vx, vy, c, r) == idx;
        if r == row && c == col {
        } else {
            assert(r < row || (r == row && c < col));
            assert(hit_before(mem, i, vx, vy, row, col, idx));
        }
    }
    if hit_before(mem, i, vx, vy, row, col, idx) {
        let (r, c) = choose|r: int, c: int|
            0 <= r && 0 <= c < 8 && (r < row || (r == row && c < col)) && bit_set(mem[i + r], c)
                && #[trigger] draw_index(vx, vy, c, r) == idx;
        assert(hit_before(mem, i, vx, vy, row, col + 1, idx));
    }
    if bit_set(mem[i + row], col) && 0 <= row && draw_index(vx, vy, col, row) == idx {
        assert(hit_before(mem, i, vx, vy, row, col + 1, idx));
    }
}

/// Finishing a row is the same as standing at the start of the next row.
proof fn lemma_hit_row_wrap(mem: Seq<u8>, i: int, vx: u8, vy: u8, row: int, idx: int)
    ensures
        hit_before(mem, i, vx, vy, row, 8, idx) == hit_before(mem, i, vx, vy, row + 1, 0, idx),
{
    if hit_before(mem, i, vx, vy, row, 8, idx) {
        let (r, c) = choose|r: int, c: int|
            0 <= r && 0 <= c < 8 && (r < row || (r == row && c < 8)) && bit_set(mem[i + r], c)
                && #[trigger] draw_index(vx, vy, c, r) == idx;
        assert(r < row + 1);
        assert(hit_before(mem, i, vx, vy, row + 1, 0, idx));
    }
    if hit_before(mem, i, vx, vy, row + 1, 0, idx) {
        let (r, c) = choose|r: int, c: int|
            0 <= r && 0 <= c < 8 && (r < row + 1 || (r == row + 1 && c < 0)) && bit_set(
                mem[i + r],
                c,
            ) && #[trigger] draw_index(vx, vy, c, r) == idx;
        assert(r < row || (r == row && c < 8));
        assert(hit_before(mem, i, vx, vy, row, 8, idx));
    }
}

/// Having scanned all `n` rows is the same as having hit exactly the cells
/// of `sprite_hit`.
proof fn lemma_hit_complete(mem: Seq<u8>, i: int, vx: u8, vy: u8, n: int, idx: int)
    ensures
        hit_before(mem, i, vx, vy, n, 0, idx) == sprite_hit(mem, i, vx, vy, n, idx),
{
    if hit_before(mem, i, vx, vy, n, 0, idx) {
        let (r, c) = choose|r: int, c: int|
            0 <= r && 0 <= c < 8 && (r < n || (r == n && c < 0)) && bit_set(mem[i + r], c)
                && #[trigger] draw_index(vx, vy, c, r) == idx;
        assert(sprite_hit(mem, i, vx, vy, n, idx));
    }
    if sprite_hit(mem, i, vx, vy, n, idx) {
        let (r, c) = choose|r: int, c: int|
            0 <= r < n && 0 <= c < 8 && bit_set(mem[i + r], c) && #[trigger] draw_index(
                vx,
                vy,
                c,
                r,
            ) == idx;
        assert(hit_before(mem, i, vx, vy, n, 0, idx));
    }
}

/// Carries an "a lit cell was hit" witness between two scan positions
/// whose sets of hit cells agree cell by cell.
proof fn lemma_collision_transfer(
    d0: Seq<bool>,
    mem: Seq<u8>,
    i: int,
    vx: u8,
    vy: u8,
    r1: int,
    c1: int,
    r2: int,
    c2: int,
)
    requires
        forall|idx: int|
            0 <= idx < d0.len() ==> #[trigger] hit_before(mem, i, vx, vy, r1, c1, idx)
                == hit_before(mem, i, vx, vy, r2, c2, idx),
    ensures
        (exists|idx: int|
            0 <= idx < d0.len() && d0[idx] && #[trigger] hit_before(mem, i, vx, vy, r1, c1, idx))
            == (exists|idx: int|
            0 <= idx < d0.len() && d0[idx] && #[trigger] hit_before(mem, i, vx, vy, r2, c2, idx)),
{
    if exists|idx: int|
        0 <= idx < d0.len() && d0[idx] && #[trigger] hit_before(mem, i, vx, vy, r1, c1, idx) {
        let idx = choose|idx: int|
            0 <= idx < d0.len() && d0[idx] && #[trigger] hit_before(mem, i, vx, vy, r1, c1, idx);
        assert(hit_before(mem, i, vx, vy, r2, c2, idx));
    }
    if exists|idx: int|
        0 <= idx < d0.len() && d0[idx] && #[trigger] hit_before(mem, i, vx, vy, r2, c2, idx) {
        let idx = choose|idx: int|
            0 <= idx < d0.len() && d0[idx] && #[trigger] hit_before(mem, i, vx, vy, r2, c2, idx);
        assert(hit_before(mem, i, vx, vy, r1, c1, idx));
    }
}

/// Draws the `n`-row sprite at memory address `i` anchored at `(vx, vy)`,
/// toggling the framebuffer cell under every set bit, and reports whether
/// any toggled cell was already lit.
pub(crate) fn draw_sprite(
    display: &mut Vec<bool>,
    memory: &Vec<u8>,
    i: usize,
    vx: u8,
    vy: u8,
    n: u8,
) -> (collision: bool)
    requires
        old(display)@.len() == DISPLAY_CELLS,
        memory@.len() == MEMORY_SIZE,
        n <= 15,
        n > 0 ==> i + n <= MEMORY_SIZE,
    ensures
        final(display)@ == draw_display(old(display)@, memory@, i as int, vx, vy, n as int),
        collision == draw_collision(old(display)@, memory@, i as int, vx, vy, n as int),
{
    let ghost d0 = old(display)@;
    let ghost mem = memory@;
    let ghost ii = i as int;
    let mut collision = false;
    let mut row: u8 = 0;
    proof {
        assert forall|idx: int| 0 <= idx < DISPLAY_CELLS implies !hit_before(
            mem,
            ii,
            vx,
            vy,
            0,
            0,
            idx,
        ) by {
            if hit_before(mem, ii, vx, vy, 0, 0, idx) {
                let (r, c) = choose|r: int, c: int|
                    0 <= r && 0 <= c < 8 && (r < 0 || (r == 0 && c < 0)) && bit_set(mem[ii + r], c)
                        && #[trigger] draw_index(vx, vy, c, r) == idx;
                assert(false);
            }
        }
    }
    while row < n
        invariant
            row <= n,
            n <= 15,
            n > 0 ==> i + n <= MEMORY_SIZE,
            mem == memory@,
            mem.len() == MEMORY_SIZE,
            d0.len() == DISPLAY_CELLS,
            display@.len() == DISPLAY_CELLS,
            ii == i as int,
            forall|idx: int|
                0 <= idx < DISPLAY_CELLS ==> display@[idx] == (d0[idx] != hit_before(
                    mem,
                    ii,
                    vx,
                    vy,
                    row as int,
                    0,
                    idx,
                )),
            collision == (exists|idx: int|
                0 <= idx < DISPLAY_CELLS && d0[idx] && #[trigger] hit_before(
                    mem,
                    ii,
                    vx,
                    vy,
                    row as int,
                    0,
                    idx,
                )),
        decreases n - row,
    {
        let row_byte: u8 = memory[i + row as usize];
        let mut col: u8 = 0;
        while col < 8
            invariant
                col <= 8,
                row < n,
                n <= 15,
                n > 0 ==> i + n <= MEMORY_SIZE,
                mem == memory@,
                mem.len() == MEMORY_SIZE,
                d0.len() == DISPLAY_CELLS,
                display@.len() == DISPLAY_CELLS,
                ii == i as int,
                row_byte == mem[ii + row],
                forall|idx: int|
                    0 <= idx < DISPLAY_CELLS ==> display@[idx] == (d0[idx] != hit_before(
                        mem,
                        ii,
                        vx,
                        vy,
                        row as int,
                        col as int,
                        idx,
                    )),
                collision == (exists|idx: int|
                    0 <= idx < DISPLAY_CELLS && d0[idx] && #[trigger] hit_before(
                        mem,
                        ii,
                        vx,
                        vy,
                        row as int,
                        col as int,
                        idx,
                    )),
            decreases 8 - col,
        {
            if (row_byte >> (7 - col)) & 0x01 == 0x01 {
                let xi = (vx as usize + col as usize) % DISPLAY_WIDTH;
                let yi = (vy as usize + row as usize) % DISPLAY_HEIGHT;
                let idx = xi + yi * DISPLAY_WIDTH;
                proof {
                    assert(bit_set(mem[ii + row], col as int));
                    assert(idx as int == draw_index(vx, vy, col as int, row as int));
                    lemma_draw_index_bounds(vx, vy, col as int, row as int);
                    lemma_fresh_cell(mem, ii, vx, vy, row as int, col as int);
                }
                let prev = display[idx];
                if prev {
                    collision = true;
                }
                display[idx] = !prev;
                proof {
                    let ghost target = idx as int;
                    assert forall|idxp: int| 0 <= idxp < DISPLAY_CELLS implies display@[idxp] == (
                    d0[idxp] != hit_before(
                        mem,
                        ii,
                        vx,
                        vy,
                        row as int,
                        col as int + 1,
                        idxp,
                    )) by {
                        lemma_hit_step(mem, ii, vx, vy, row as int, col as int, idxp);
                    }
                    // The collision flag gains exactly the cell under this bit.
                    assert(prev == d0[target]);
                    if collision {
                        if prev {
                            assert(hit_before(
                                mem,
                                ii,
                                vx,
                                vy,
                                row as int,
                                col as int + 1,
                                target,
                            )) by {
                                lemma_hit_step(mem, ii, vx, vy, row as int, col as int, target);
                            }
                            assert(exists|idx2: int|
                                0 <= idx2 < DISPLAY_CELLS && d0[idx2] && #[trigger] hit_before(
                                    mem,
                                    ii,
                                    vx,
                                    vy,
                                    row as int,
                                    col as int + 1,
                                    idx2,
                                ));
                        } else {
                            let idx2 = choose|idx2: int|
                                0 <= idx2 < DISPLAY_CELLS && d0[idx2] && #[trigger] hit_before(
                                    mem,
                                    ii,
                                    vx,
                                    vy,
                                    row as int,
                                    col as int,
                                    idx2,
                                );
                            lemma_hit_step(mem, ii, vx, vy, row as int, col as int, idx2);
                            assert(exists|idx3: int|
                                0 <= idx3 < DISPLAY_CELLS && d0[idx3] && #[trigger] hit_before(
                                    mem,
                                    ii,
                                    vx,
                                    vy,
                                    row as int,
                                    col as int + 1,
                                    idx3,
                                ));
                        }
                    } else {
                        assert forall|idx2: int|
                            0 <= idx2 < DISPLAY_CELLS && d0[idx2] implies !hit_before(
                            mem,
                            ii,
                            vx,
                            vy,
                            row as int,
                            col as int + 1,
                            idx2,
                        ) by {
                            lemma_hit_step(mem, ii, vx, vy, row as int, col as int, idx2);
                        }
                    }
                }
            } else {
                proof {
                    assert forall|idxp: int| 0 <= idxp < DISPLAY_CELLS implies #[trigger] hit_before(
                        mem,
                        ii,
                        vx,
                        vy,
                        row as int,
                        col as int + 1,
                        idxp,
                    ) == hit_before(mem, ii, vx, vy, row as int, col as int, idxp) by {
                        lemma_hit_step(mem, ii, vx, vy, row as int, col as int, idxp);
                    }
                    lemma_collision_transfer(
                        d0,
                        mem,
                        ii,
                        vx,
                        vy,
                        row as int,
                        col as int,
                        row as int,
                        col as int + 1,
                    );
                }
            }
            col += 1;
        }
        proof {
            assert forall|idxp: int| 0 <= idxp < DISPLAY_CELLS implies #[trigger] hit_before(
                mem,
                ii,
                vx,
                vy,
                row as int + 1,
                0,
                idxp,
            ) == hit_before(mem, ii, vx, vy, row as int, 8, idxp) by {
                lemma_hit_row_wrap(mem, ii, vx, vy, row as int, idxp);
            }
            lemma_collision_transfer(
                d0,
                mem,
                ii,
                vx,
                vy,
                row as int,
                8,
                row as int + 1,
                0,
            );
        }
        row += 1;
    }
    proof {
        assert forall|idxp: int| 0 <= idxp < DISPLAY_CELLS implies #[trigger] hit_before(
            mem,
            ii,
            vx,
            vy,
            n as int,
            0,
            idxp,
        ) == sprite_hit(mem, ii, vx, vy, n as int, idxp) by {
            lemma_hit_complete(mem, ii, vx, vy, n as int, idxp);
        }
        assert(display@ =~= draw_display(d0, mem, ii, vx, vy, n as int));
        // Collision agrees with the model's statement over sprite_hit.
        if collision {
            let idx = choose|idx: int|
                0 <= idx < DISPLAY_CELLS && d0[idx] && #[trigger] hit_before(
                    mem,
                    ii,
                    vx,
                    vy,
                    n as int,
                    0,
                    idx,
                );
            assert(sprite_hit(mem, ii, vx, vy, n as int, idx));
            assert(draw_collision(d0, mem, ii, vx, vy, n as int));
        } else {
            if draw_collision(d0, mem, ii, vx, vy, n as int) {
                let idx = choose|idx: int|
                    0 <= idx < d0.len() && d0[idx] && sprite_hit(mem, ii, vx, vy, n as int, idx);
                assert(hit_before(mem, ii, vx, vy, n as int, 0, idx));
                assert(false);
            }
        }
    }
    collision
}

} // verus!
