use vstd::prelude::*;
use vstd::arithmetic::div_mod::{lemma_fundamental_div_mod, lemma_fundamental_div_mod_converse};

verus! {

/// Origin, within its tile, of the `q`-th 16x16 quadrant that the hardware writes.
/// On even tile rows the order is top-left, bottom-left, bottom-right, top-right;
/// odd tile rows visit the same quadrants in reverse order.
pub open spec fn quadrant_origin(odd_row: bool, q: int) -> (int, int) {
    let e = if odd_row { 3 - q } else { q };
    if e == 0 {
        (0, 0)
    } else if e == 1 {
        (0, 16)
    } else if e == 2 {
        (16, 16)
    } else {
        (16, 0)
    }
}

/// Position in the visiting order of the quadrant at column `qx`, row `qy` (each 0 or 1).
pub open spec fn quadrant_index(odd_row: bool, qx: int, qy: int) -> int {
    let e = if qx == 0 {
        if qy == 0 { 0int } else { 1int }
    } else {
        if qy == 1 { 2int } else { 3int }
    };
    if odd_row { 3 - e } else { e }
}

/// Where, inside its tile, the `w`-th pixel of the tile lands: quadrant, then 4x4 block in
/// raster order, then pixel in raster order.
pub open spec fn within_tile_position(odd_row: bool, w: int) -> (int, int) {
    let q = w / 256;
    let b = (w % 256) / 16;
    let p = w % 16;
    let o = quadrant_origin(odd_row, q);
    (o.0 + 4 * (b % 4) + p % 4, o.1 + 4 * (b / 4) + p / 4)
}

/// Inverse of `within_tile_position`: the rank inside its tile of the pixel at (lx, ly).
pub open spec fn within_tile_offset(odd_row: bool, lx: int, ly: int) -> int {
    let q = quadrant_index(odd_row, lx / 16, ly / 16);
    let b = 4 * ((ly % 16) / 4) + (lx % 16) / 4;
    256 * q + 16 * b + 4 * (ly % 4) + lx % 4
}

/// Column of the `k`-th tile of a tile row: left to right on even rows, right to left on odd.
pub open spec fn zigzag_column(cols: int, row: int, k: int) -> int {
    if row % 2 == 0 { k } else { cols - 1 - k }
}

/// Raster position of the `within`-th pixel of the `tile`-th tile of an image `cols` tiles wide.
pub open spec fn tile_position(cols: int, tile: int, within: int) -> (int, int) {
    let row = tile / cols;
    let col = zigzag_column(cols, row, tile % cols);
    let l = within_tile_position(row % 2 == 1, within);
    (32 * col + l.0, 32 * row + l.1)
}

/// Index, in the tiled buffer, of the pixel at raster position (x, y).
pub open spec fn tiled_offset(cols: int, x: int, y: int) -> int {
    let row = y / 32;
    let k = zigzag_column(cols, row, x / 32);
    1024 * (row * cols + k) + within_tile_offset(row % 2 == 1, x % 32, y % 32)
}

/// `x` divided by `d` is `q` with remainder `r`.
pub(crate) proof fn lemma_split(x: int, d: int, q: int, r: int)
    requires
        d > 0,
        0 <= r < d,
        x == q * d + r,
    ensures
        x / d == q,
        x % d == r,
{
    lemma_fundamental_div_mod_converse(x, d, q, r);
}

proof fn lemma_within_tile_round_trip(odd_row: bool, w: int)
    requires
        0 <= w < 1024,
    ensures
        0 <= within_tile_position(odd_row, w).0 < 32,
        0 <= within_tile_position(odd_row, w).1 < 32,
        within_tile_offset(
            odd_row,
            within_tile_position(odd_row, w).0,
            within_tile_position(odd_row, w).1,
        ) == w,
{
    let q = w / 256;
    let r = w % 256;
    let b = r / 16;
    let p = w % 16;
    lemma_split(w, 256, q, r);
    lemma_split(r, 16, b, r % 16);
    lemma_split(w, 16, 16 * q + b, r % 16);
    let bx = b % 4;
    let by = b / 4;
    let px = p % 4;
    let py = p / 4;
    lemma_split(b, 4, by, bx);
    lemma_split(p, 4, py, px);
    let o = quadrant_origin(odd_row, q);
    let qx = o.0 / 16;
    let qy = o.1 / 16;
    assert(o.0 == 16 * qx && o.1 == 16 * qy && 0 <= qx < 2 && 0 <= qy < 2);
    let lx = o.0 + 4 * bx + px;
    let ly = o.1 + 4 * by + py;
    lemma_split(lx, 16, qx, 4 * bx + px);
    lemma_split(ly, 16, qy, 4 * by + py);
    lemma_split(4 * bx + px, 4, bx, px);
    lemma_split(4 * by + py, 4, by, py);
    lemma_split(lx, 4, 4 * qx + bx, px);
    lemma_split(ly, 4, 4 * qy + by, py);
    assert(quadrant_index(odd_row, qx, qy) == q);
    assert(within_tile_position(odd_row, w) == (lx, ly));
}

proof fn lemma_within_tile_inverse(odd_row: bool, lx: int, ly: int)
    requires
        0 <= lx < 32,
        0 <= ly < 32,
    ensures
        0 <= within_tile_offset(odd_row, lx, ly) < 1024,
        within_tile_position(odd_row, within_tile_offset(odd_row, lx, ly)) == (lx, ly),
{
    let qx = lx / 16;
    let qy = ly / 16;
    lemma_split(lx, 16, qx, lx % 16);
    lemma_split(ly, 16, qy, ly % 16);
    let bx = (lx % 16) / 4;
    let by = (ly % 16) / 4;
    let px = (lx % 16) % 4;
    let py = (ly % 16) % 4;
    lemma_split(lx % 16, 4, bx, px);
    lemma_split(ly % 16, 4, by, py);
    lemma_split(lx, 4, 4 * qx + bx, px);
    lemma_split(ly, 4, 4 * qy + by, py);
    let q = quadrant_index(odd_row, qx, qy);
    let b = 4 * by + bx;
    let p = 4 * py + px;
    let w = 256 * q + 16 * b + p;
    assert(w == within_tile_offset(odd_row, lx, ly));
    lemma_split(w, 256, q, 16 * b + p);
    lemma_split(16 * b + p, 16, b, p);
    lemma_split(w, 16, 16 * q + b, p);
    lemma_split(b, 4, by, bx);
    lemma_split(p, 4, py, px);
    assert(quadrant_origin(odd_row, q) == (16 * qx, 16 * qy));
}

/// Decoding the tiled layout and encoding it again give back the same position: every
/// pixel of every tile lands on its own raster position, and that position leads back to it.
pub proof fn tile_position_round_trip(cols: int, tile: int, within: int)
    requires
        cols > 0,
        0 <= tile,
        0 <= within < 1024,
    ensures
        0 <= tile_position(cols, tile, within).0 < 32 * cols,
        0 <= tile_position(cols, tile, within).1 < 32 * (tile / cols) + 32,
        tiled_offset(cols, tile_position(cols, tile, within).0, tile_position(cols, tile, within).1)
            == 1024 * tile + within,
{
    let row = tile / cols;
    let k = tile % cols;
    lemma_fundamental_div_mod(tile, cols);
    assert(tile == row * cols + k) by (nonlinear_arith)
        requires tile == cols * row + k;
    lemma_split(tile, cols, row, k);
    let col = zigzag_column(cols, row, k);
    let odd = row % 2 == 1;
    lemma_within_tile_round_trip(odd, within);
    let l = within_tile_position(odd, within);
    let x = 32 * col + l.0;
    let y = 32 * row + l.1;
    lemma_split(x, 32, col, l.0);
    lemma_split(y, 32, row, l.1);
    assert(zigzag_column(cols, row, col) == k);
    assert(row * cols + k == tile) by (nonlinear_arith)
        requires tile == row * cols + k;
    assert(32 * col + l.0 < 32 * cols);
}

/// Every raster position of an image `cols` tiles wide has exactly one place in the tiled
/// buffer, and decoding that place gives the position back.
pub proof fn tiled_offset_round_trip(cols: int, x: int, y: int)
    requires
        0 <= x < 32 * cols,
        0 <= y,
    ensures
        0 <= tiled_offset(cols, x, y) < 1024 * (cols * (y / 32) + cols),
        tile_position(cols, tiled_offset(cols, x, y) / 1024, tiled_offset(cols, x, y) % 1024)
            == (x, y),
{
    let row = y / 32;
    let tx = x / 32;
    lemma_split(x, 32, tx, x % 32);
    lemma_split(y, 32, row, y % 32);
    let k = zigzag_column(cols, row, tx);
    let odd = row % 2 == 1;
    lemma_within_tile_inverse(odd, x % 32, y % 32);
    let w = within_tile_offset(odd, x % 32, y % 32);
    let t = row * cols + k;
    assert(0 <= row * cols) by (nonlinear_arith)
        requires 0 <= row, 0 < cols;
    lemma_split(t, cols, row, k);
    lemma_split(1024 * t + w, 1024, t, w);
    assert(zigzag_column(cols, row, k) == tx);
    assert(row * cols + k < cols * row + cols) by (nonlinear_arith)
        requires k < cols;
}

/// Raster position of the `within`-th pixel of the `tile`-th tile, in an image `cols` tiles
/// wide.
pub fn tile_pixel_position(cols: u32, tile: u64, within: u32) -> (r: (u32, u32))
    requires
        cols > 0,
        within < 1024,
        32 * cols <= u32::MAX,
        32 * (tile as int / cols as int) + 32 <= u32::MAX,
    ensures
        (r.0 as int, r.1 as int) == tile_position(cols as int, tile as int, within as int),
{
    let row = (tile / cols as u64) as u32;
    let k = (tile % cols as u64) as u32;
    let col = if row % 2 == 0 { k } else { cols - 1 - k };
    let q = within / 256;
    let b = (within % 256) / 16;
    let p = within % 16;
    let e = if row % 2 == 1 { 3 - q } else { q };
    let (ox, oy): (u32, u32) = if e == 0 {
        (0, 0)
    } else if e == 1 {
        (0, 16)
    } else if e == 2 {
        (16, 16)
    } else {
        (16, 0)
    };
    proof {
        lemma_fundamental_div_mod(tile as int, cols as int);
        lemma_within_tile_round_trip(row % 2 == 1, within as int);
    }
    (32 * col + ox + 4 * (b % 4) + p % 4, 32 * row + oy + 4 * (b / 4) + p / 4)
}

/// Cell, in an image decimated four times each way, of the `g`-th 4x4 block of the tiled
/// buffer (blocks are sixteen consecutive pixels).
pub open spec fn block_cell(cols: int, g: int) -> (int, int) {
    let p = tile_position(cols, g / 64, 16 * (g % 64));
    (p.0 / 4, p.1 / 4)
}

/// A block starts on a pixel whose coordinates are multiples of four, and encoding that pixel
/// gives back the block's first index.
pub(crate) proof fn lemma_block_start(cols: int, g: int)
    requires
        cols > 0,
        0 <= g,
    ensures
        tile_position(cols, g / 64, 16 * (g % 64)).0 == 4 * block_cell(cols, g).0,
        tile_position(cols, g / 64, 16 * (g % 64)).1 == 4 * block_cell(cols, g).1,
        tiled_offset(
            cols,
            tile_position(cols, g / 64, 16 * (g % 64)).0,
            tile_position(cols, g / 64, 16 * (g % 64)).1,
        ) == 16 * g,
        0 <= block_cell(cols, g).0 < 8 * cols,
        0 <= block_cell(cols, g).1 < 8 * (g / 64 / cols) + 8,
{
    let t = g / 64;
    let j = g % 64;
    lemma_split(g, 64, t, j);
    lemma_fundamental_div_mod(g, 64);
    tile_position_round_trip(cols, t, 16 * j);
    let row = t / cols;
    let col = zigzag_column(cols, row, t % cols);
    let odd = row % 2 == 1;
    let w = 16 * j;
    lemma_split(w, 256, j / 16, 16 * (j % 16));
    lemma_split(16 * (j % 16), 16, j % 16, 0);
    lemma_split(w, 16, j, 0);
    let b = j % 16;
    let o = quadrant_origin(odd, j / 16);
    let lx = o.0 + 4 * (b % 4);
    let ly = o.1 + 4 * (b / 4);
    assert(within_tile_position(odd, w) == (lx, ly));
    let x = 32 * col + lx;
    let y = 32 * row + ly;
    lemma_split(x, 4, 8 * col + o.0 / 4 + b % 4, 0);
    lemma_split(y, 4, 8 * row + o.1 / 4 + b / 4, 0);
}

/// Two different blocks never share a cell.
pub(crate) proof fn lemma_block_cells_distinct(cols: int, g1: int, g2: int)
    requires
        cols > 0,
        0 <= g1,
        0 <= g2,
        g1 != g2,
    ensures
        block_cell(cols, g1) != block_cell(cols, g2),
{
    lemma_block_start(cols, g1);
    lemma_block_start(cols, g2);
}

/// Every cell of the decimated image is the cell of exactly the block that starts at the
/// encoded position of its top-left pixel.
#[verifier::rlimit(40)]
pub(crate) proof fn lemma_cell_block(cols: int, cx: int, cy: int)
    requires
        cols > 0,
        0 <= cx < 8 * cols,
        0 <= cy,
    ensures
        tiled_offset(cols, 4 * cx, 4 * cy) % 16 == 0,
        block_cell(cols, tiled_offset(cols, 4 * cx, 4 * cy) / 16) == (cx, cy),
        0 <= tiled_offset(cols, 4 * cx, 4 * cy) / 16 < 64 * (cols * (4 * cy / 32) + cols),
{
    let x = 4 * cx;
    let y = 4 * cy;
    tiled_offset_round_trip(cols, x, y);
    let o = tiled_offset(cols, x, y);
    let row = y / 32;
    let k = zigzag_column(cols, row, x / 32);
    lemma_split(x, 32, x / 32, x % 32);
    lemma_split(y, 32, row, y % 32);
    lemma_split(x % 32, 4, (x % 32) / 4, 0);
    lemma_split(y % 32, 4, (y % 32) / 4, 0);
    let lx = x % 32;
    let ly = y % 32;
    lemma_split(lx, 16, lx / 16, lx % 16);
    lemma_split(ly, 16, ly / 16, ly % 16);
    lemma_split(lx % 16, 4, (lx % 16) / 4, 0);
    lemma_split(ly % 16, 4, (ly % 16) / 4, 0);
    let w = within_tile_offset(row % 2 == 1, lx, ly);
    let t = row * cols + k;
    let q = quadrant_index(row % 2 == 1, lx / 16, ly / 16);
    let b = 4 * ((ly % 16) / 4) + (lx % 16) / 4;
    assert(w == 256 * q + 16 * b);
    let g = 64 * t + 16 * q + b;
    assert(o == 16 * g);
    lemma_split(o, 16, g, 0);
    lemma_split(o, 1024, t, w);
    lemma_split(g, 64, t, 16 * q + b);
    lemma_block_start(cols, g);
}

} // verus!
