//! Rastering of image layers on the pixel grid: which cells of a thresholded
//! image burn, the burning runs of each scan line, the preview texture, and
//! the scaling of grey images to the job's line grid. Placing the grid on the
//! bed in millimetres is the caller's.

use vstd::prelude::*;

verus! {

/// A grey-scale image as raster source: row-major pixels (and optionally an
/// alpha channel) with its size in pixels.
#[derive(Debug, Clone, Copy)]
pub struct RasterImage<'a> {
    pub pixels: &'a [u8],
    pub alpha: Option<&'a [u8]>,
    pub px_w: usize,
    pub px_h: usize,
}

impl<'a> RasterImage<'a> {
    /// The image has pixels and as many as its size says.
    pub open spec fn spec_is_usable(&self) -> bool {
        self.px_w > 0 && self.px_h > 0 && self.pixels@.len() == self.px_w * self.px_h
    }

    /// Can the image be rastered (non-empty and consistent)?
    pub fn is_usable(&self) -> (r: bool)
        ensures
            r == self.spec_is_usable(),
    {
        if self.px_w == 0 || self.px_h == 0 {
            return false;
        }
        match self.px_w.checked_mul(self.px_h) {
            Some(n) => self.pixels.len() == n,
            None => {
                assert(self.pixels@.len() == self.pixels.len());
                false
            },
        }
    }
}

/// A pixel of a thresholded image that burns.
pub open spec fn burns(v: u8) -> bool {
    v < 128
}

/// Pixel `i` lies in one of the runs.
pub open spec fn covered(runs: Seq<(usize, usize)>, i: int) -> bool {
    exists|k: int| 0 <= k < runs.len() && #[trigger] runs[k].0 <= i < runs[k].1
}

/// `runs` are exactly the maximal stretches of burning pixels of `line`,
/// from left to right: each non-empty, separated by at least one pixel that
/// does not burn, and together covering every burning pixel and no other.
pub open spec fn are_burn_runs(line: Seq<u8>, runs: Seq<(usize, usize)>) -> bool {
    &&& forall|k: int| 0 <= k < runs.len() ==> (#[trigger] runs[k]).0 < runs[k].1 <= line.len()
    &&& forall|k: int| 0 <= k < runs.len() - 1 ==> (#[trigger] runs[k]).1 < runs[k + 1].0
    &&& forall|i: int| 0 <= i < line.len() ==> (burns(#[trigger] line[i]) <==> covered(runs, i))
}

/// The burning runs of one scan line, as half-open column ranges.
pub fn burn_runs(line: &[u8]) -> (runs: Vec<(usize, usize)>)
    ensures
        are_burn_runs(line@, runs@),
{
    let n = line.len();
    let mut runs: Vec<(usize, usize)> = Vec::new();
    let mut start: Option<usize> = None;
    let mut col: usize = 0;
    while col < n
        invariant
            col <= n == line@.len(),
            forall|k: int| 0 <= k < runs@.len() ==> (#[trigger] runs@[k]).0 < runs@[k].1 < col,
            forall|k: int| 0 <= k < runs@.len() ==> !burns(line@[(#[trigger] runs@[k]).1 as int]),
            forall|k: int| 0 <= k < runs@.len() - 1 ==> (#[trigger] runs@[k]).1 < runs@[k + 1].0,
            start matches Some(s) ==> s < col && forall|k: int|
                0 <= k < runs@.len() ==> (#[trigger] runs@[k]).1 < s,
            forall|i: int|
                0 <= i < col ==> (burns(#[trigger] line@[i]) <==> (covered(runs@, i) || (
                start matches Some(s) && s <= i))),
        decreases n - col,
    {
        let ghost before = runs@;
        let black = line[col] < 128;
        if black {
            if start.is_none() {
                start = Some(col);
            }
        } else {
            match start {
                Some(s) => {
                    runs.push((s, col));
                    start = None;
                    proof {
                        assert forall|i: int|
                            0 <= i <= col implies (burns(#[trigger] line@[i]) <==> covered(
                            runs@,
                            i,
                        )) by {
                            if covered(before, i) {
                                let k = choose|k: int|
                                    0 <= k < before.len() && #[trigger] before[k].0 <= i < before[k].1;
                                assert(runs@[k] == before[k]);
                                assert(runs@[k].0 <= i < runs@[k].1);
                            }
                            if s <= i < col {
                                assert(runs@[before.len() as int] == (s, col));
                                assert(runs@[before.len() as int].0 <= i < runs@[before.len() as int].1);
                            }
                            if covered(runs@, i) {
                                let k = choose|k: int|
                                    0 <= k < runs@.len() && #[trigger] runs@[k].0 <= i < runs@[k].1;
                                if k < before.len() {
                                    assert(runs@[k] == before[k]);
                                }
                            }
                        }
                    }
                },
                None => {
                    proof {
                        assert forall|i: int|
                            0 <= i <= col implies (burns(#[trigger] line@[i]) <==> covered(
                            runs@,
                            i,
                        )) by {
                            if i == col && covered(runs@, i) {
                                let k = choose|k: int|
                                    0 <= k < runs@.len() && #[trigger] runs@[k].0 <= i < runs@[k].1;
                            }
                        }
                    }
                },
            }
        }
        col = col + 1;
    }
    let ghost before = runs@;
    if let Some(s) = start {
        runs.push((s, n));
        proof {
            assert forall|i: int| 0 <= i < n implies (burns(#[trigger] line@[i]) <==> covered(
                runs@,
                i,
            )) by {
                if covered(before, i) {
                    let k = choose|k: int|
                        0 <= k < before.len() && #[trigger] before[k].0 <= i < before[k].1;
                    assert(runs@[k] == before[k]);
                    assert(runs@[k].0 <= i < runs@[k].1);
                }
                if s <= i {
                    assert(runs@[before.len() as int] == (s, n));
                    assert(runs@[before.len() as int].0 <= i < runs@[before.len() as int].1);
                }
                if covered(runs@, i) {
                    let k = choose|k: int|
                        0 <= k < runs@.len() && #[trigger] runs@[k].0 <= i < runs@[k].1;
                    if k < before.len() {
                        assert(runs@[k] == before[k]);
                    }
                }
            }
        }
    }
    runs
}

/// A line has burning runs exactly when it has a burning pixel.
pub proof fn runs_exist_iff_burning(line: Seq<u8>, runs: Seq<(usize, usize)>)
    requires
        are_burn_runs(line, runs),
    ensures
        runs.len() > 0 <==> exists|i: int| 0 <= i < line.len() && burns(#[trigger] line[i]),
{
    if runs.len() > 0 {
        let i = runs[0].0 as int;
        assert(runs[0].0 <= i < runs[0].1);
        assert(covered(runs, i));
        assert(burns(line[i]));
    }
    if exists|i: int| 0 <= i < line.len() && burns(#[trigger] line[i]) {
        let i = choose|i: int| 0 <= i < line.len() && burns(#[trigger] line[i]);
        assert(covered(runs, i));
    }
}

/// The burning runs of one scan line of the job grid.
#[derive(Debug, Clone)]
pub struct RowRuns {
    pub row: usize,
    pub runs: Vec<(usize, usize)>,
}

/// Scan line `row` of a row-major grid `width` cells wide.
pub open spec fn grid_line(cells: Seq<u8>, width: nat, row: int) -> Seq<u8> {
    cells.subrange(row * width, row * width + width)
}

/// Scan line `row` has a burning cell.
pub open spec fn line_burns(bw: Seq<u8>, tw: nat, row: int) -> bool {
    exists|i: int| 0 <= i < tw && burns(#[trigger] grid_line(bw, tw, row)[i])
}

/// Scan line `row` is listed.
pub open spec fn row_listed(rows: Seq<RowRuns>, row: int) -> bool {
    exists|k: int| 0 <= k < rows.len() && (#[trigger] rows[k]).row == row
}

/// The burning runs of every scan line of a thresholded grid (`tw` × `th`
/// cells), top to bottom; lines without a burning cell are left out.
pub fn raster_runs(bw: &Vec<u8>, tw: usize, th: usize) -> (rows: Vec<RowRuns>)
    requires
        bw@.len() == tw * th,
    ensures
        forall|k: int|
            0 <= k < rows@.len() ==> {
                &&& (#[trigger] rows@[k]).row < th
                &&& are_burn_runs(grid_line(bw@, tw as nat, rows@[k].row as int), rows@[k].runs@)
                &&& rows@[k].runs@.len() > 0
            },
        forall|k: int| 0 <= k < rows@.len() - 1 ==> (#[trigger] rows@[k]).row < rows@[k + 1].row,
        forall|row: int|
            0 <= row < th ==> (#[trigger] line_burns(bw@, tw as nat, row) <==> row_listed(rows@, row)),
{
    let mut rows: Vec<RowRuns> = Vec::new();
    let mut row: usize = 0;
    let mut base: usize = 0;
    while row < th
        invariant
            row <= th,
            bw@.len() == tw * th,
            base == row * tw,
            forall|k: int|
                0 <= k < rows@.len() ==> {
                    &&& (#[trigger] rows@[k]).row < row
                    &&& are_burn_runs(
                        grid_line(bw@, tw as nat, rows@[k].row as int),
                        rows@[k].runs@,
                    )
                    &&& rows@[k].runs@.len() > 0
                },
            forall|k: int| 0 <= k < rows@.len() - 1 ==> (#[trigger] rows@[k]).row < rows@[k + 1].row,
            forall|r: int|
                0 <= r < row ==> (#[trigger] line_burns(bw@, tw as nat, r) <==> row_listed(rows@, r)),
        decreases th - row,
    {
        proof {
            lemma_line_in_bounds(row as int, tw as int, th as int);
        }
        assert(base + tw <= bw@.len() == bw.len());
        let line = vstd::slice::slice_subrange(bw.as_slice(), base, base + tw);
        let runs = burn_runs(line);
        proof {
            let gl = grid_line(bw@, tw as nat, row as int);
            assert(line@ == gl);
            assert(gl.len() == tw);
            runs_exist_iff_burning(gl, runs@);
            assert(line_burns(bw@, tw as nat, row as int) <==> runs@.len() > 0) by {
                if runs@.len() > 0 {
                    let i = choose|i: int| 0 <= i < gl.len() && burns(#[trigger] gl[i]);
                    assert(burns(grid_line(bw@, tw as nat, row as int)[i]));
                    assert(0 <= i < tw);
                    assert(exists|j: int|
                        0 <= j < tw && burns(#[trigger] grid_line(bw@, tw as nat, row as int)[j]));
                    assert(line_burns(bw@, tw as nat, row as int));
                }
                if line_burns(bw@, tw as nat, row as int) {
                    let i = choose|i: int|
                        0 <= i < tw && burns(#[trigger] grid_line(bw@, tw as nat, row as int)[i]);
                    assert(burns(gl[i]));
                }
            }
        }
        let ghost before = rows@;
        if runs.len() > 0 {
            rows.push(RowRuns { row, runs });
            assert(rows@.subrange(0, before.len() as int) =~= before);
        }
        proof {
            lemma_rows_step(bw@, tw as nat, row as int, before, rows@);
        }
        row = row + 1;
        base = base + tw;
    }
    rows
}

proof fn lemma_line_in_bounds(row: int, tw: int, th: int)
    requires
        0 <= row < th,
        0 <= tw,
    ensures
        row * tw + tw <= tw * th,
        (row + 1) * tw == row * tw + tw,
{
    assert(row * tw + tw <= tw * th) by (nonlinear_arith)
        requires
            0 <= row < th,
            0 <= tw,
    ;
    assert((row + 1) * tw == row * tw + tw) by (nonlinear_arith);
}

proof fn lemma_rows_step(bw: Seq<u8>, tw: nat, row: int, before: Seq<RowRuns>, after: Seq<RowRuns>)
    requires
        forall|k: int| 0 <= k < before.len() ==> (#[trigger] before[k]).row < row,
        forall|r: int|
            0 <= r < row ==> (#[trigger] line_burns(bw, tw, r) <==> row_listed(before, r)),
        after == before || (after.len() == before.len() + 1 && after.subrange(
            0,
            before.len() as int,
        ) == before && after.last().row == row),
        after == before <==> !line_burns(bw, tw, row),
    ensures
        forall|r: int|
            0 <= r < row + 1 ==> (#[trigger] line_burns(bw, tw, r) <==> row_listed(after, r)),
{
    assert forall|r: int| 0 <= r < row + 1 implies (#[trigger] line_burns(bw, tw, r) <==> row_listed(
        after,
        r,
    )) by {
        if row_listed(after, r) {
            let k = choose|k: int| 0 <= k < after.len() && (#[trigger] after[k]).row == r;
            if k < before.len() {
                assert(after.subrange(0, before.len() as int)[k] == after[k]);
                assert(before[k].row == r);
            }
        }
        if r < row && row_listed(before, r) {
            let k = choose|k: int| 0 <= k < before.len() && (#[trigger] before[k]).row == r;
            if after != before {
                assert(after.subrange(0, before.len() as int)[k] == after[k]);
            }
            assert(after[k].row == r);
        }
        if r == row && after != before {
            assert(after[before.len() as int].row == r);
        }
    }
}

/// Preview texture of a thresholded grid: 255 where a cell burns, 0 where not.
pub open spec fn texture_of(bw: Seq<u8>) -> Seq<u8> {
    bw.map_values(|v: u8| if burns(v) {
        255u8
    } else {
        0u8
    })
}

/// The preview texture of a thresholded grid — the same cells the job burns.
pub fn texture_pixels(bw: &Vec<u8>) -> (t: Vec<u8>)
    ensures
        t@ == texture_of(bw@),
{
    let mut t: Vec<u8> = Vec::new();
    let mut i: usize = 0;
    while i < bw.len()
        invariant
            i <= bw@.len(),
            t@ =~= texture_of(bw@).subrange(0, i as int),
        decreases bw.len() - i,
    {
        t.push(if bw[i] < 128 {
            255
        } else {
            0
        });
        i = i + 1;
    }
    t
}

/// Cells whose (scaled) alpha is below half never burn: they are set to 255
/// (as far as both buffers reach).
pub fn mask_transparent(cells: &mut Vec<u8>, alpha: &Vec<u8>)
    ensures
        final(cells)@.len() == old(cells)@.len(),
        forall|i: int|
            0 <= i < old(cells)@.len() ==> #[trigger] final(cells)@[i] == if i < alpha@.len()
                && alpha@[i] < 128 {
                255u8
            } else {
                old(cells)@[i]
            },
{
    let n = if cells.len() < alpha.len() {
        cells.len()
    } else {
        alpha.len()
    };
    let mut i: usize = 0;
    while i < n
        invariant
            i <= n,
            n <= old(cells)@.len(),
            n <= alpha@.len(),
            n == old(cells)@.len() || n == alpha@.len(),
            cells@.len() == old(cells)@.len(),
            forall|k: int|
                0 <= k < old(cells)@.len() ==> #[trigger] cells@[k] == if k < i && alpha@[k] < 128 {
                    255u8
                } else {
                    old(cells)@[k]
                },
        decreases n - i,
    {
        if alpha[i] < 128 {
            cells.set(i, 255);
        }
        i = i + 1;
    }
}

/// `image::imageops::resize` with the Lanczos3 filter on a grey buffer
/// (`GrayImage::from_raw`, then `resize`, then `into_raw`). `from_raw`
/// refuses a buffer shorter than `sw * sh` (then `None`); otherwise the
/// result has `dw * dh` pixels. Which grey values come out is left unsaid:
/// the filter computes in `f32` with `sin`, whose precision std leaves to the
/// platform, so equal inputs need not give equal bytes everywhere. The
/// intermediate and result buffers must fit in memory (`ImageBuffer::new`
/// panics otherwise), which `requires` states.
#[verifier::external_body]
fn image_resize_lanczos3(src: &Vec<u8>, sw: u32, sh: u32, dw: u32, dh: u32) -> (r: Option<Vec<u8>>)
    requires
        4 * (sw as int) * (dh as int) <= usize::MAX,
        (dw as int) * (dh as int) <= usize::MAX,
    ensures
        match r {
            None => src@.len() < (sw as int) * (sh as int),
            Some(v) => src@.len() >= (sw as int) * (sh as int) && v@.len() == (dw as int) * (
            dh as int),
        },
{
    let img = image::GrayImage::from_raw(sw, sh, src.clone())?;
    Some(image::imageops::resize(&img, dw, dh, image::imageops::FilterType::Lanczos3).into_raw())
}

/// Scales a grey buffer (`sw` × `sh`) to `dw` × `dh` with the Lanczos3 filter,
/// which keeps fine lines sharp when scaling down. The same size leaves it
/// unchanged, and a buffer too short for its size is returned as it is;
/// otherwise the result has `dw * dh` pixels (their grey values are the
/// filter's, which this contract does not state).
pub fn scale_gray(src: &Vec<u8>, sw: u32, sh: u32, dw: u32, dh: u32) -> (r: Vec<u8>)
    requires
        4 * (sw as int) * (dh as int) <= usize::MAX,
        (dw as int) * (dh as int) <= usize::MAX,
    ensures
        sw == dw && sh == dh ==> r@ == src@,
        !(sw == dw && sh == dh) && src@.len() < (sw as int) * (sh as int) ==> r@ == src@,
        !(sw == dw && sh == dh) && src@.len() >= (sw as int) * (sh as int) ==> r@.len() == (
        dw as int) * (dh as int),
{
    if sw == dw && sh == dh {
        return crate::state::copy_vec(src);
    }
    match image_resize_lanczos3(src, sw, sh, dw, dh) {
        Some(v) => v,
        None => crate::state::copy_vec(src),
    }
}

} // verus!
