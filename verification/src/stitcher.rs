use vstd::prelude::*;
use vstd::arithmetic::div_mod::{
    lemma_div_is_ordered, lemma_div_pos_is_pos, lemma_fundamental_div_mod,
    lemma_fundamental_div_mod_converse, lemma_mod_bound,
};
use vstd::arithmetic::mul::lemma_mul_inequality;
use crate::raster::{Raster, RasterModel};
use crate::TileError;

verus! {

/// Number of grid rows needed to hold `count` tiles at `tiles_per_row` per
/// row: the ceiling of `count / tiles_per_row`.
pub open spec fn grid_rows(count: int, tiles_per_row: int) -> int
    recommends
        count >= 0,
        tiles_per_row >= 1,
{
    (count + tiles_per_row - 1) / tiles_per_row
}

/// The models of a sequence of rasters.
pub open spec fn models_of(tiles: Seq<Raster>) -> Seq<RasterModel> {
    tiles.map_values(|t: Raster| t@)
}

/// The pixel that placing the first `placed` tiles cell by cell leaves at
/// (x, y): the corresponding pixel of the tile owning the cell that contains
/// (x, y) if that tile is among the placed ones, else the zeroed background.
pub open spec fn placed_pixel(
    tiles: Seq<RasterModel>,
    tiles_per_row: int,
    tile_size: int,
    placed: int,
    x: int,
    y: int,
) -> (u8, u8, u8, u8)
    recommends
        tiles_per_row >= 1,
        tile_size >= 1,
{
    let cell = (y / tile_size) * tiles_per_row + (x / tile_size);
    if 0 <= cell < placed && cell < tiles.len() {
        tiles[cell].pixel(x % tile_size, y % tile_size)
    } else {
        (0u8, 0u8, 0u8, 0u8)
    }
}

/// The pixel of the finished composite at (x, y): every supplied tile has
/// been placed.
pub open spec fn composite_pixel(
    tiles: Seq<RasterModel>,
    tiles_per_row: int,
    tile_size: int,
    x: int,
    y: int,
) -> (u8, u8, u8, u8)
    recommends
        tiles_per_row >= 1,
        tile_size >= 1,
{
    placed_pixel(tiles, tiles_per_row, tile_size, tiles.len() as int, x, y)
}

/// Byte `k` of the composite raster's buffer: channel `k % 4` of the pixel
/// at flat index `k / 4`, the pixels taken in row-major order.
pub open spec fn composite_byte(
    tiles: Seq<RasterModel>,
    tiles_per_row: int,
    tile_size: int,
    k: int,
) -> u8
    recommends
        tiles_per_row >= 1,
        tile_size >= 1,
{
    let w = tile_size * tiles_per_row;
    let p = k / 4;
    let x = p % w;
    let y = p / w;
    let px = composite_pixel(tiles, tiles_per_row, tile_size, x, y);
    let c = k % 4;
    if c == 0 {
        px.0
    } else if c == 1 {
        px.1
    } else if c == 2 {
        px.2
    } else {
        px.3
    }
}

/// The model of the whole composite raster built from the given tiles.
pub open spec fn composite_model(
    tiles: Seq<RasterModel>,
    tiles_per_row: int,
    tile_size: int,
) -> RasterModel
    recommends
        tiles_per_row >= 1,
        tile_size >= 1,
{
    let w = tile_size * tiles_per_row;
    let h = tile_size * grid_rows(tiles.len() as int, tiles_per_row);
    RasterModel {
        width: w as nat,
        height: h as nat,
        data: Seq::new(
            (4 * w * h) as nat,
            |k: int| composite_byte(tiles, tiles_per_row, tile_size, k),
        ),
    }
}

/// The composite raster's dimensions are determined by the grid parameters
/// and the tile count alone: tile_size * tiles_per_row wide and
/// tile_size * ceil(count / tiles_per_row) tall.
pub proof fn lemma_composite_dimensions(
    tiles: Seq<RasterModel>,
    tiles_per_row: int,
    tile_size: int,
)
    requires
        tiles_per_row >= 1,
        tile_size >= 1,
    ensures
        composite_model(tiles, tiles_per_row, tile_size).width == tile_size * tiles_per_row,
        composite_model(tiles, tiles_per_row, tile_size).height == tile_size * grid_rows(
            tiles.len() as int,
            tiles_per_row,
        ),
{
    lemma_div_pos_is_pos(tiles.len() + tiles_per_row - 1, tiles_per_row);
    assert(tile_size * tiles_per_row >= 0 && tile_size * grid_rows(
        tiles.len() as int,
        tiles_per_row,
    ) >= 0) by (nonlinear_arith)
        requires
            tiles_per_row >= 1,
            tile_size >= 1,
            grid_rows(tiles.len() as int, tiles_per_row) >= 0,
    ;
}

/// Each tile occupies exactly its grid cell: in the composite, the block
/// whose top-left corner is (column * tile_size, row * tile_size) holds,
/// pixel for pixel, the top-left tile_size x tile_size block of tile `i`,
/// where row = i / tiles_per_row and column = i % tiles_per_row.
pub proof fn lemma_tile_block_placement(
    tiles: Seq<RasterModel>,
    tiles_per_row: int,
    tile_size: int,
    i: int,
    a: int,
    b: int,
)
    requires
        tiles_per_row >= 1,
        tile_size >= 1,
        0 <= i < tiles.len(),
        0 <= a < tile_size,
        0 <= b < tile_size,
    ensures
        composite_pixel(
            tiles,
            tiles_per_row,
            tile_size,
            (i % tiles_per_row) * tile_size + a,
            (i / tiles_per_row) * tile_size + b,
        ) == tiles[i].pixel(a, b),
{
    let col = i % tiles_per_row;
    let row = i / tiles_per_row;
    let x = col * tile_size + a;
    let y = row * tile_size + b;
    lemma_fundamental_div_mod(i, tiles_per_row);
    lemma_mod_bound(i, tiles_per_row);
    lemma_div_pos_is_pos(i, tiles_per_row);
    lemma_fundamental_div_mod_converse(x, tile_size, col, a);
    lemma_fundamental_div_mod_converse(y, tile_size, row, b);
    assert(row * tiles_per_row == tiles_per_row * row) by (nonlinear_arith);
}

/// A well-formed raster with the composite's dimensions whose every pixel
/// agrees with `composite_pixel` is the composite model itself.
pub proof fn lemma_composite_model_eq(
    c: RasterModel,
    tiles: Seq<RasterModel>,
    tiles_per_row: int,
    tile_size: int,
)
    requires
        tiles_per_row >= 1,
        tile_size >= 1,
        c.wf(),
        c.width == tile_size * tiles_per_row,
        c.height == tile_size * grid_rows(tiles.len() as int, tiles_per_row),
        forall|x: int, y: int|
            0 <= x < c.width && 0 <= y < c.height ==> #[trigger] c.pixel(x, y) == composite_pixel(
                tiles,
                tiles_per_row,
                tile_size,
                x,
                y,
            ),
    ensures
        c == composite_model(tiles, tiles_per_row, tile_size),
{
    let m = composite_model(tiles, tiles_per_row, tile_size);
    let w = tile_size * tiles_per_row;
    let h = tile_size * grid_rows(tiles.len() as int, tiles_per_row);
    assert(4 * w * h == 4 * (w * h) && (4 * c.width) * c.height == 4 * ((c.width as int) * (
    c.height as int))) by (nonlinear_arith);
    assert(c.data.len() == m.data.len());
    assert forall|k: int| 0 <= k < c.data.len() implies c.data[k] == m.data[k] by {
        let p = k / 4;
        let c4 = k % 4;
        let x = p % w;
        let y = p / w;
        lemma_fundamental_div_mod(k, 4);
        lemma_mod_bound(k, 4);
        lemma_div_pos_is_pos(k, 4);
        lemma_fundamental_div_mod(p, w);
        lemma_mod_bound(p, w);
        lemma_div_pos_is_pos(p, w);
        // p < w * h, hence y < h
        lemma_fundamental_div_mod_converse(4 * (w * h) - 1, 4, w * h - 1, 3);
        lemma_div_is_ordered(k, 4 * (w * h) - 1, 4);
        assert((h - 1) * w == h * w - w && w * h == h * w) by (nonlinear_arith);
        lemma_fundamental_div_mod_converse(w * h - 1, w, h - 1, w - 1);
        lemma_div_is_ordered(p, w * h - 1, w);
        // k is byte c4 of pixel (x, y)
        assert(w * y == y * w) by (nonlinear_arith);
        assert(k == 4 * (y * w + x) + c4);
        assert(c.pixel(x, y) == composite_pixel(tiles, tiles_per_row, tile_size, x, y));
    };
    assert(c.data =~= m.data);
    assert(c =~= m);
}

/// Copy the top-left `ts` x `ts` block of `src` into `dst` at offset
/// (dx, dy), leaving every pixel outside that region untouched.
fn blit_tile(dst: &mut Raster, src: &Raster, dx: u32, dy: u32, ts: u32)
    requires
        old(dst).wf(),
        src.wf(),
        ts <= src@.width,
        ts <= src@.height,
        dx + ts <= old(dst)@.width,
        dy + ts <= old(dst)@.height,
    ensures
        final(dst).wf(),
        final(dst)@.width == old(dst)@.width,
        final(dst)@.height == old(dst)@.height,
        forall|a: int, b: int|
            0 <= a < ts && 0 <= b < ts ==> #[trigger] final(dst)@.pixel(dx + a, dy + b)
                == src@.pixel(a, b),
        forall|x: int, y: int|
            0 <= x < old(dst)@.width && 0 <= y < old(dst)@.height && !(dx <= x < dx + ts && dy <= y
                < dy + ts) ==> #[trigger] final(dst)@.pixel(x, y) == old(dst)@.pixel(x, y),
{
    let ghost dst0 = dst@;
    let mut b: u32 = 0;
    while b < ts
        invariant
            dst.wf(),
            src.wf(),
            dst@.width == dst0.width,
            dst@.height == dst0.height,
            dst0.wf(),
            ts <= src@.width,
            ts <= src@.height,
            dx + ts <= dst0.width,
            dy + ts <= dst0.height,
            b <= ts,
            forall|a2: int, b2: int|
                0 <= a2 < ts && 0 <= b2 < b ==> #[trigger] dst@.pixel(dx + a2, dy + b2)
                    == src@.pixel(a2, b2),
            forall|x: int, y: int|
                0 <= x < dst0.width && 0 <= y < dst0.height && !(dx <= x < dx + ts && dy <= y < dy
                    + b) ==> #[trigger] dst@.pixel(x, y) == dst0.pixel(x, y),
        decreases ts - b,
    {
        let mut a: u32 = 0;
        while a < ts
            invariant
                dst.wf(),
                src.wf(),
                dst@.width == dst0.width,
                dst@.height == dst0.height,
                dst0.wf(),
                ts <= src@.width,
                ts <= src@.height,
                dx + ts <= dst0.width,
                dy + ts <= dst0.height,
                b < ts,
                a <= ts,
                forall|a2: int, b2: int|
                    0 <= a2 < ts && 0 <= b2 < b ==> #[trigger] dst@.pixel(dx + a2, dy + b2)
                        == src@.pixel(a2, b2),
                forall|a2: int|
                    0 <= a2 < a ==> #[trigger] dst@.pixel(dx + a2, dy + b) == src@.pixel(
                        a2,
                        b as int,
                    ),
                forall|x: int, y: int|
                    0 <= x < dst0.width && 0 <= y < dst0.height && !(dx <= x < dx + ts && dy <= y
                        < dy + b) && !(y == dy + b && dx <= x < dx + a) ==> #[trigger] dst@.pixel(
                        x,
                        y,
                    ) == dst0.pixel(x, y),
            decreases ts - a,
        {
            let p = src.get_pixel(a, b);
            dst.put_pixel(dx + a, dy + b, p);
            a = a + 1;
        }
        b = b + 1;
    }
}

/// Composite an ordered sequence of tiles into one raster.  Tile `i` goes to
/// grid cell (row `i / tiles_per_row`, column `i % tiles_per_row`); only its
/// top-left `tile_size` x `tile_size` block is read, so larger tiles are
/// cropped.  A tile smaller than the tile edge cannot be copied without
/// reading out of bounds and aborts the run.
pub fn stitch_grid(tiles: &Vec<Raster>, tiles_per_row: u32, tile_size: u32) -> (r: Result<
    Raster,
    TileError,
>)
    requires
        tiles_per_row >= 1,
        tile_size >= 1,
        tiles@.len() <= u32::MAX,
        forall|i: int| 0 <= i < tiles@.len() ==> (#[trigger] tiles@[i]).wf(),
        tile_size * tiles_per_row <= u32::MAX,
        tile_size * grid_rows(tiles@.len() as int, tiles_per_row as int) <= u32::MAX,
        4 * (tile_size * tiles_per_row) * (tile_size * grid_rows(
            tiles@.len() as int,
            tiles_per_row as int,
        )) <= usize::MAX,
    ensures
        match r {
            Ok(c) => {
                &&& c.wf()
                &&& c@.width == tile_size * tiles_per_row
                &&& c@.height == tile_size * grid_rows(tiles@.len() as int, tiles_per_row as int)
                &&& forall|i: int|
                    0 <= i < tiles@.len() ==> tile_size <= (#[trigger] tiles@[i])@.width
                        && tile_size <= tiles@[i]@.height
                &&& forall|x: int, y: int|
                    0 <= x < c@.width && 0 <= y < c@.height ==> #[trigger] c@.pixel(x, y)
                        == composite_pixel(
                        models_of(tiles@),
                        tiles_per_row as int,
                        tile_size as int,
                        x,
                        y,
                    )
            },
            Err(e) => {
                &&& e is Stitch
                &&& exists|i: int|
                    0 <= i < tiles@.len() && ((#[trigger] tiles@[i])@.width < tile_size
                        || tiles@[i]@.height < tile_size)
            },
        },
{
    let n = tiles.len();

    let mut j: usize = 0;
    while j < n
        invariant
            n == tiles@.len(),
            j <= n,
            forall|k: int|
                0 <= k < j ==> tile_size <= (#[trigger] tiles@[k])@.width && tile_size
                    <= tiles@[k]@.height,
        decreases n - j,
    {
        let t = &tiles[j];
        if t.width() < tile_size || t.height() < tile_size {
            proof {
                assert(0 <= j < tiles@.len() && ((tiles@[j as int])@.width < tile_size
                    || tiles@[j as int]@.height < tile_size));
            }
            return Err(TileError::Stitch);
        }
        j = j + 1;
    }

    let ghost rows_spec = grid_rows(n as int, tiles_per_row as int);
    proof {
        lemma_div_pos_is_pos(n + tiles_per_row - 1, tiles_per_row as int);
        lemma_mul_inequality(1, tile_size as int, rows_spec);
    }
    let rows64: u64 = ((n as u64) + (tiles_per_row as u64) - 1) / (tiles_per_row as u64);
    let rows: u32 = rows64 as u32;
    let out_w: u32 = tile_size * tiles_per_row;
    let out_h: u32 = tile_size * rows;

    let ghost models = models_of(tiles@);
    let mut comp = Raster::new(out_w, out_h);
    let mut i: usize = 0;
    while i < n
        invariant
            n == tiles@.len(),
            n <= u32::MAX,
            tiles_per_row >= 1,
            tile_size >= 1,
            models == models_of(tiles@),
            forall|k: int| 0 <= k < n ==> (#[trigger] tiles@[k]).wf(),
            forall|k: int|
                0 <= k < n ==> tile_size <= (#[trigger] tiles@[k])@.width && tile_size
                    <= tiles@[k]@.height,
            rows == grid_rows(n as int, tiles_per_row as int),
            out_w == tile_size * tiles_per_row,
            out_h == tile_size * rows,
            i <= n,
            comp.wf(),
            comp@.width == out_w,
            comp@.height == out_h,
            forall|x: int, y: int|
                0 <= x < out_w && 0 <= y < out_h ==> #[trigger] comp@.pixel(x, y) == placed_pixel(
                    models,
                    tiles_per_row as int,
                    tile_size as int,
                    i as int,
                    x,
                    y,
                ),
        decreases n - i,
    {
        let iu: u32 = i as u32;
        let col: u32 = iu % tiles_per_row;
        let row: u32 = iu / tiles_per_row;
        proof {
            let tpr = tiles_per_row as int;
            let ts = tile_size as int;
            lemma_fundamental_div_mod(iu as int, tpr);
            lemma_mod_bound(iu as int, tpr);
            // col < tiles_per_row, so the column offset stays inside a row
            lemma_mul_inequality(col + 1, tpr, ts);
            assert((col + 1) * ts == col * ts + ts && tpr * ts == ts * tpr && (row + 1) * ts == row
                * ts + ts && row * tpr == tpr * row) by (nonlinear_arith);
            // row < rows: i <= n - 1, so i / tiles_per_row <= (n - 1) / tiles_per_row,
            // and (n - 1 + tiles_per_row) / tiles_per_row is one more than that
            lemma_div_is_ordered(iu as int, n - 1, tpr);
            lemma_fundamental_div_mod(n - 1, tpr);
            lemma_mod_bound(n - 1, tpr);
            assert(((n - 1) / tpr + 1) * tpr == tpr * ((n - 1) / tpr) + tpr) by (nonlinear_arith);
            lemma_fundamental_div_mod_converse(
                n - 1 + tpr,
                tpr,
                (n - 1) / tpr + 1,
                (n - 1) % tpr,
            );
            assert(row < rows);
            lemma_mul_inequality(row + 1, rows as int, ts);
            assert((rows as int) * ts == ts * (rows as int)) by (nonlinear_arith);
        }
        let dx: u32 = col * tile_size;
        let dy: u32 = row * tile_size;
        blit_tile(&mut comp, &tiles[i], dx, dy, tile_size);
        proof {
            let tpr = tiles_per_row as int;
            let ts = tile_size as int;
            assert forall|x: int, y: int| 0 <= x < out_w && 0 <= y < out_h implies #[trigger] comp@.pixel(
                x,
                y,
            ) == placed_pixel(models, tpr, ts, i + 1, x, y) by {
                assert((col as int) * ts == ts * (col as int) && (row as int) * ts == ts * (row
                    as int) && (row as int) * tpr == tpr * (row as int)) by (nonlinear_arith);
                if dx <= x < dx + ts && dy <= y < dy + ts {
                    lemma_fundamental_div_mod_converse(x, ts, col as int, x - dx);
                    lemma_fundamental_div_mod_converse(y, ts, row as int, y - dy);
                    assert((y / ts) * tpr + (x / ts) == i);
                    assert(comp@.pixel(dx + (x - dx), dy + (y - dy)) == tiles@[i as int]@.pixel(
                        x - dx,
                        y - dy,
                    ));
                    assert(comp@.pixel(x, y) == tiles@[i as int]@.pixel(x - dx, y - dy));
                } else {
                    let cell = (y / ts) * tpr + (x / ts);
                    lemma_fundamental_div_mod(x, ts);
                    lemma_fundamental_div_mod(y, ts);
                    lemma_mod_bound(x, ts);
                    lemma_mod_bound(y, ts);
                    lemma_div_pos_is_pos(x, ts);
                    lemma_div_pos_is_pos(y, ts);
                    if cell == i {
                        // x / ts < tiles_per_row because x < tile_size * tiles_per_row
                        assert((tpr - 1) * ts == tpr * ts - ts) by (nonlinear_arith);
                        lemma_fundamental_div_mod_converse(out_w - 1, ts, tpr - 1, ts - 1);
                        lemma_div_is_ordered(x, out_w - 1, ts);
                        // a cell number determines its row and column uniquely
                        lemma_fundamental_div_mod_converse(cell, tpr, y / ts, x / ts);
                        lemma_fundamental_div_mod_converse(
                            cell,
                            tpr,
                            row as int,
                            col as int,
                        );
                        assert(x / ts == col && y / ts == row);
                        assert(dx <= x < dx + ts && dy <= y < dy + ts);
                        assert(false);
                    }
                    assert(comp@.pixel(x, y) == placed_pixel(models, tpr, ts, i as int, x, y));
                }
            };
        }
        i = i + 1;
    }
    Ok(comp)
}

} // verus!
