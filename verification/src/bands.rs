//! Partition of the output raster into disjoint horizontal bands.
//!
//! The parallel dispatcher splits the image into row-aligned bands, one per
//! worker task. Safety of the concurrent rendering rests entirely on this
//! partition being exact: every row (and hence every buffer cell) belongs to
//! exactly one band. That fact is proved here, once, over the plan that the
//! dispatcher computes up front from the immutable image bounds.

use vstd::prelude::*;
use vstd::arithmetic::div_mod::lemma_fundamental_div_mod;
use vstd::arithmetic::div_mod::lemma_fundamental_div_mod_converse;

verus! {

/// One horizontal band of the output raster: `height` rows starting at image
/// row `top`.
#[derive(Clone, Copy, PartialEq, Eq, Structural, Debug)]
pub struct Band {
    pub top: usize,
    pub height: usize,
}

impl Band {
    /// The band owns image row `r`.
    pub open spec fn covers_row(self, r: int) -> bool {
        self.top <= r < self.top + self.height
    }

    /// First flat buffer index of the band's slice, for an image of the
    /// given width (row-major layout).
    pub open spec fn byte_start(self, width: int) -> int {
        self.top * width
    }

    /// One past the last flat buffer index of the band's slice.
    pub open spec fn byte_end(self, width: int) -> int {
        (self.top + self.height) * width
    }

    /// The band's slice owns flat buffer index `k`.
    pub open spec fn covers_index(self, width: int, k: int) -> bool {
        self.byte_start(width) <= k < self.byte_end(width)
    }
}

/// Rows given to every band but the last: `height / workers + 1`. Strictly
/// positive even when `height < workers`, so a band is never empty and
/// `workers` bands of this size always suffice for `height` rows.
pub open spec fn spec_rows_per_band(height: int, workers: int) -> int
    recommends
        1 <= workers,
{
    height / workers + 1
}

/// Height of band `i` in a plan of bands of `rpb` rows each over `height`
/// rows: `rpb`, except that the last band takes only what is left.
pub open spec fn spec_band_height(height: int, rpb: int, i: int) -> int {
    if height - i * rpb < rpb {
        height - i * rpb
    } else {
        rpb
    }
}

/// Some band of the plan owns image row `r`.
pub open spec fn some_band_covers_row(bands: Seq<Band>, r: int) -> bool {
    exists|i: int| 0 <= i < bands.len() && (#[trigger] bands[i]).covers_row(r)
}

/// Some band's slice owns flat buffer index `k`, for an image of the given
/// width.
pub open spec fn some_band_covers_index(bands: Seq<Band>, width: int, k: int) -> bool {
    exists|i: int| 0 <= i < bands.len() && (#[trigger] bands[i]).covers_index(width, k)
}

/// The closed form of a band plan: band `i` starts at row `i * rpb` and is
/// `rpb` rows tall except that the last band stops at `height`; together the
/// bands span exactly the rows `0 .. height`, each band non-empty.
pub open spec fn is_band_plan(bands: Seq<Band>, height: int, rpb: int) -> bool {
    &&& forall|i: int| 0 <= i < bands.len() ==> (#[trigger] bands[i]).top == i * rpb
    &&& forall|i: int|
        0 <= i < bands.len() ==> (#[trigger] bands[i]).height == spec_band_height(height, rpb, i)
    &&& forall|i: int| 0 <= i < bands.len() ==> 1 <= (#[trigger] bands[i]).height
    &&& height <= bands.len() * rpb
    &&& (bands.len() - 1) * rpb < height
}

/// Band height used by the dispatcher, computed from the image height and
/// the number of worker tasks.
pub fn rows_per_band(height: usize, workers: usize) -> (r: usize)
    requires
        1 <= workers,
        height < usize::MAX,
    ensures
        r == spec_rows_per_band(height as int, workers as int),
        1 <= r,
        height < r * workers,
{
    proof {
        let h = height as int;
        let w = workers as int;
        let q = h / w;
        let m = h % w;
        lemma_fundamental_div_mod(h, w);
        assert(h < (q + 1) * w) by (nonlinear_arith)
            requires
                1 <= w,
                h == w * q + m,
                0 <= m < w;
    }
    height / workers + 1
}

/// The dispatcher's partition plan: successive bands of `rows_per_band`
/// rows, the last possibly shorter, covering the whole image. At most
/// `workers` bands are produced (fewer when the image is short), and none is
/// empty.
pub fn band_plan(height: usize, workers: usize) -> (bands: Vec<Band>)
    requires
        1 <= workers,
        height < usize::MAX,
    ensures
        is_band_plan(
            bands@,
            height as int,
            spec_rows_per_band(height as int, workers as int),
        ),
        bands@.len() <= workers,
        height == 0 ==> bands@.len() == 0,
{
    let rpb = rows_per_band(height, workers);
    let ghost grpb: int = rpb as int;
    let mut bands: Vec<Band> = Vec::new();
    let mut top: usize = 0;
    while top < height
        invariant
            1 <= rpb,
            grpb == rpb as int,
            grpb == spec_rows_per_band(height as int, workers as int),
            height < rpb * workers,
            top <= height,
            forall|i: int| 0 <= i < bands@.len() ==> (#[trigger] bands@[i]).top == i * grpb,
            forall|i: int|
                0 <= i < bands@.len() ==> (#[trigger] bands@[i]).height == spec_band_height(
                    height as int,
                    grpb,
                    i,
                ),
            forall|i: int| 0 <= i < bands@.len() ==> 1 <= (#[trigger] bands@[i]).height,
            top < height ==> top == bands@.len() * grpb,
            top <= bands@.len() * grpb,
            bands@.len() == 0 ==> top == 0,
            1 <= bands@.len() ==> (bands@.len() - 1) * grpb < top,
        decreases height - top,
    {
        let ghost glen: int = bands@.len() as int;
        let remaining = height - top;
        let h = if remaining < rpb {
            remaining
        } else {
            rpb
        };
        bands.push(Band { top, height: h });
        proof {
            assert(glen * grpb + grpb == (glen + 1) * grpb) by (nonlinear_arith);
            assert(bands@[glen].top == glen * grpb);
            assert(bands@[glen].height == spec_band_height(height as int, grpb, glen));
        }
        top = top + h;
    }
    proof {
        if bands@.len() >= 1 {
            assert((bands@.len() - 1) * grpb < height);
        } else {
            assert((0 - 1) * grpb < 0) by (nonlinear_arith)
                requires
                    1 <= grpb;
        }
        if bands@.len() > workers {
            let w = workers as int;
            let n = bands@.len() as int;
            assert(w * grpb <= (n - 1) * grpb) by (nonlinear_arith)
                requires
                    1 <= grpb,
                    w <= n - 1;
            assert(rpb * workers == w * grpb) by (nonlinear_arith)
                requires
                    w == workers,
                    grpb == rpb;
            assert(false);
        }
    }
    bands
}

/// Partition completeness over rows: in a band plan every image row is
/// covered by exactly one band - no gaps and no overlaps.
pub proof fn lemma_bands_partition_rows(bands: Seq<Band>, height: int, rpb: int)
    requires
        is_band_plan(bands, height, rpb),
        1 <= rpb,
        0 <= height,
    ensures
        forall|r: int| 0 <= r < height ==> #[trigger] some_band_covers_row(bands, r),
        forall|i: int, j: int, r: int|
            0 <= i < bands.len() && 0 <= j < bands.len() && bands[i].covers_row(r)
                && bands[j].covers_row(r) ==> i == j,
{
    assert forall|r: int| 0 <= r < height implies #[trigger] some_band_covers_row(bands, r) by {
        let i = r / rpb;
        lemma_fundamental_div_mod(r, rpb);
        assert(i * rpb <= r < (i + 1) * rpb) by (nonlinear_arith)
            requires
                1 <= rpb,
                r == rpb * (r / rpb) + r % rpb,
                0 <= r % rpb < rpb,
                i == r / rpb;
        assert(0 <= i) by (nonlinear_arith)
            requires
                0 <= r,
                1 <= rpb,
                i * rpb <= r < (i + 1) * rpb;
        if i >= bands.len() {
            assert(bands.len() * rpb <= i * rpb) by (nonlinear_arith)
                requires
                    1 <= rpb,
                    bands.len() <= i;
            assert(false);
        }
        assert(bands[i].top == i * rpb);
        if bands[i].height == rpb {
            assert(bands[i].covers_row(r));
        } else {
            assert(bands[i].height == height - i * rpb);
            assert(bands[i].covers_row(r));
        }
    }
    assert forall|i: int, j: int, r: int|
        0 <= i < bands.len() && 0 <= j < bands.len() && bands[i].covers_row(r)
            && bands[j].covers_row(r) implies i == j by {
        lemma_band_index_of_row(bands, height, rpb, i, r);
        lemma_band_index_of_row(bands, height, rpb, j, r);
    }
}

/// A band of a plan covers only the rows whose quotient by `rpb` is the
/// band's own index.
proof fn lemma_band_index_of_row(bands: Seq<Band>, height: int, rpb: int, i: int, r: int)
    requires
        is_band_plan(bands, height, rpb),
        1 <= rpb,
        0 <= i < bands.len(),
        bands[i].covers_row(r),
    ensures
        i == r / rpb,
{
    assert(bands[i].top == i * rpb);
    assert(bands[i].height <= rpb);
    assert(i * rpb <= r < i * rpb + rpb);
    assert(r == i * rpb + (r - i * rpb));
    lemma_fundamental_div_mod_converse(r, rpb, i, r - i * rpb);
}

/// Partition completeness over the flat buffer: for a positive image width,
/// the bands' slices cover every cell of the `width * height` buffer exactly
/// once.
pub proof fn lemma_bands_partition_buffer(bands: Seq<Band>, width: int, height: int, rpb: int)
    requires
        is_band_plan(bands, height, rpb),
        1 <= rpb,
        0 <= height,
        1 <= width,
    ensures
        forall|k: int|
            0 <= k < width * height ==> #[trigger] some_band_covers_index(bands, width, k),
        forall|i: int, j: int, k: int|
            0 <= i < bands.len() && 0 <= j < bands.len() && bands[i].covers_index(width, k)
                && bands[j].covers_index(width, k) ==> i == j,
{
    lemma_bands_partition_rows(bands, height, rpb);
    assert forall|k: int| 0 <= k < width * height implies #[trigger] some_band_covers_index(
        bands,
        width,
        k,
    ) by {
        let r = k / width;
        lemma_fundamental_div_mod(k, width);
        assert(0 <= r < height) by (nonlinear_arith)
            requires
                1 <= width,
                0 <= k < width * height,
                k == width * (k / width) + k % width,
                0 <= k % width < width,
                r == k / width;
        assert(some_band_covers_row(bands, r));
        let i = choose|i: int| 0 <= i < bands.len() && (#[trigger] bands[i]).covers_row(r);
        assert(bands[i].covers_index(width, k)) by (nonlinear_arith)
            requires
                1 <= width,
                k == width * r + k % width,
                0 <= k % width < width,
                bands[i].top <= r < bands[i].top + bands[i].height,
                bands[i].byte_start(width) == bands[i].top * width,
                bands[i].byte_end(width) == (bands[i].top + bands[i].height) * width,
                bands[i].covers_index(width, k) <==> (bands[i].byte_start(width) <= k
                    < bands[i].byte_end(width));
    }
    assert forall|i: int, j: int, k: int|
        0 <= i < bands.len() && 0 <= j < bands.len() && bands[i].covers_index(width, k)
            && bands[j].covers_index(width, k) implies i == j by {
        lemma_row_of_covered_index(bands, width, height, rpb, i, k);
        lemma_row_of_covered_index(bands, width, height, rpb, j, k);
    }
}

/// A band's slice holds exactly the cells of the rows it covers: a covered
/// flat index has its row, `k / width`, covered by the same band.
proof fn lemma_row_of_covered_index(bands: Seq<Band>, width: int, height: int, rpb: int, i: int, k: int)
    requires
        is_band_plan(bands, height, rpb),
        1 <= rpb,
        1 <= width,
        0 <= i < bands.len(),
        bands[i].covers_index(width, k),
    ensures
        bands[i].covers_row(k / width),
{
    let r = k / width;
    lemma_fundamental_div_mod(k, width);
    assert(bands[i].top <= r < bands[i].top + bands[i].height) by (nonlinear_arith)
        requires
            1 <= width,
            k == width * r + k % width,
            0 <= k % width < width,
            bands[i].top * width <= k < (bands[i].top + bands[i].height) * width,
            0 <= bands[i].top;
}

} // verus!
