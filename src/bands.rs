//! The split of the image into horizontal row bands, one per render worker,
//! and the reassembly of the workers' buffers in band order.
use vstd::arithmetic::div_mod::{lemma_fundamental_div_mod, lemma_fundamental_div_mod_converse};
use vstd::prelude::*;

verus! {

/// Rows in each band: the image height split `bands` ways, rounded up.
pub open spec fn rows_per_band_spec(height: nat, bands: nat) -> nat {
    height / bands + if height % bands == 0 {
        0nat
    } else {
        1nat
    }
}

/// First row of band `index`.
pub open spec fn band_start(index: nat, height: nat, bands: nat) -> nat {
    let p = index * rows_per_band_spec(height, bands);
    if p < height {
        p
    } else {
        height
    }
}

/// Number of rows in band `index`: a full band, or what is left of the image.
pub open spec fn band_len(index: nat, height: nat, bands: nat) -> nat {
    let rest = (height - band_start(index, height, bands)) as nat;
    let full = rows_per_band_spec(height, bands);
    if full < rest {
        full
    } else {
        rest
    }
}

/// The rows that one band covers.
#[derive(Debug, Clone, Copy, PartialEq, Eq, Structural)]
pub struct RowBand {
    pub first_row: usize,
    pub rows: usize,
}

/// Rows in each band of an image `height` rows high split into `bands` bands.
pub fn rows_per_band(height: usize, bands: usize) -> (r: usize)
    requires
        bands > 0,
    ensures
        r == rows_per_band_spec(height as nat, bands as nat),
{
    let q = height / bands;
    if height % bands == 0 {
        q
    } else {
        proof {
            lemma_fundamental_div_mod(height as int, bands as int);
            assert(q < height) by (nonlinear_arith)
                requires
                    height == bands * q + height % bands,
                    height % bands > 0,
                    bands >= 1,
            ;
        }
        q + 1
    }
}

/// The rows of band `index`, of `bands` bands over an image `height` rows high.
pub fn band_rows(index: usize, height: usize, bands: usize) -> (r: RowBand)
    requires
        bands > 0,
    ensures
        r.first_row == band_start(index as nat, height as nat, bands as nat),
        r.rows == band_len(index as nat, height as nat, bands as nat),
{
    let per = rows_per_band(height, bands);
    let first_row = match index.checked_mul(per) {
        Some(p) if p < height => p,
        _ => height,
    };
    let rest = height - first_row;
    let rows = if per < rest {
        per
    } else {
        rest
    };
    RowBand { first_row, rows }
}

/// Pixel `k` of a band, counting row by row from its first row, as
/// `(row, column)` in the image.
pub open spec fn band_pixel(first_row: nat, width: nat, k: nat) -> (usize, usize) {
    ((first_row + k / width) as usize, (k % width) as usize)
}

/// The pixels that the worker of band `index` renders, in the order it renders
/// them: its rows top to bottom, each row left to right, as `(row, column)`.
pub fn band_pixels(index: usize, width: usize, height: usize, bands: usize) -> (r: Vec<(usize, usize)>)
    requires
        bands > 0,
        width * height <= usize::MAX,
    ensures
        r@.len() == band_len(index as nat, height as nat, bands as nat) * width,
        forall|k: int|
            0 <= k < r@.len() ==> #[trigger] r@[k] == band_pixel(
                band_start(index as nat, height as nat, bands as nat),
                width as nat,
                k as nat,
            ),
{
    let band = band_rows(index, height, bands);
    let mut r: Vec<(usize, usize)> = Vec::new();
    assert(0 * width == 0);
    for j in 0..band.rows
        invariant
            band.first_row + band.rows <= height,
            width * height <= usize::MAX,
            r@.len() == j * width,
            forall|k: int|
                0 <= k < r@.len() ==> #[trigger] r@[k] == band_pixel(
                    band.first_row as nat,
                    width as nat,
                    k as nat,
                ),
    {
        assert((j + 1) * width <= width * height) by (nonlinear_arith)
            requires
                j + 1 <= height,
        ;
        for i in 0..width
            invariant
                band.first_row + band.rows <= height,
                j < band.rows,
                (j + 1) * width <= usize::MAX,
                r@.len() == j * width + i,
                forall|k: int|
                    0 <= k < r@.len() ==> #[trigger] r@[k] == band_pixel(
                        band.first_row as nat,
                        width as nat,
                        k as nat,
                    ),
        {
            proof {
                lemma_fundamental_div_mod_converse(
                    (j * width + i) as int,
                    width as int,
                    j as int,
                    i as int,
                );
            }
            r.push((band.first_row + j, i));
        }
        assert(r@.len() == (j + 1) * width) by (nonlinear_arith)
            requires
                r@.len() == j * width + width,
        ;
    }
    r
}

/// Band `i` ends where band `i + 1` starts, inside the image.
proof fn lemma_band_step(i: nat, height: nat, bands: nat)
    requires
        bands > 0,
    ensures
        band_start(i, height, bands) + band_len(i, height, bands) == band_start(i + 1, height, bands),
        band_start(i + 1, height, bands) <= height,
{
    let per = rows_per_band_spec(height, bands);
    assert((i + 1) * per == i * per + per) by (nonlinear_arith);
}

/// Pixel `k` of a band starting at `first_row` is pixel `first_row * width + k`
/// of the row-major image.
proof fn lemma_band_pixel_shift(first_row: nat, width: nat, k: nat)
    requires
        width > 0,
    ensures
        band_pixel(first_row, width, k) == band_pixel(0, width, first_row * width + k),
{
    lemma_fundamental_div_mod(k as int, width as int);
    let q = k / width;
    let r = k % width;
    assert(first_row * width + k == (first_row + q) * width + r) by (nonlinear_arith)
        requires
            k == width * q + r,
    ;
    lemma_fundamental_div_mod_converse(
        (first_row * width + k) as int,
        width as int,
        (first_row + q) as int,
        r as int,
    );
}

/// Band `bands`, just past the last one, starts at the bottom of the image.
proof fn lemma_band_end(height: nat, bands: nat)
    requires
        bands > 0,
    ensures
        band_start(bands, height, bands) == height,
{
    let per = rows_per_band_spec(height, bands);
    lemma_fundamental_div_mod(height as int, bands as int);
    let q = height / bands;
    if height % bands == 0 {
        assert(bands * per == bands * q);
    } else {
        assert(bands * per == bands * q + bands) by (nonlinear_arith)
            requires
                per == q + 1,
        ;
    }
}

/// The bands tile the image: the first starts at the top row, each starts where
/// the one before it ends, and the last ends at the bottom of the image.
pub proof fn lemma_bands_tile(height: nat, bands: nat)
    requires
        bands > 0,
    ensures
        band_start(0, height, bands) == 0,
        forall|i: nat|
            #[trigger] band_start(i, height, bands) + band_len(i, height, bands) == band_start(
                i + 1,
                height,
                bands,
            ),
        band_start(bands, height, bands) == height,
        band_start((bands - 1) as nat, height, bands) + band_len((bands - 1) as nat, height, bands)
            == height,
{
    let per = rows_per_band_spec(height, bands);
    assert forall|i: nat| #[trigger] band_start(i, height, bands) + band_len(i, height, bands)
        == band_start(i + 1, height, bands) by {
        lemma_band_step(i, height, bands);
    }
    lemma_band_end(height, bands);
    assert(((bands - 1) as nat + 1) * per == bands * per) by (nonlinear_arith)
        requires
            bands > 0,
    ;
    assert(band_start(0, height, bands) == 0) by {
        assert(0 * per == 0);
    }
}

/// The image's pixels in row-major order, as `(row, column)`, for the first
/// `count` positions.
pub open spec fn image_pixels(width: nat, count: nat) -> Seq<(usize, usize)> {
    Seq::new(count, |k: int| band_pixel(0, width, k as nat))
}

/// What `band_pixels` gives for each band, band by band.
pub open spec fn pixels_by_band(width: nat, height: nat, bands: nat) -> Seq<Seq<(usize, usize)>> {
    Seq::new(
        bands,
        |i: int|
            Seq::new(
                band_len(i as nat, height, bands) * width,
                |k: int| band_pixel(band_start(i as nat, height, bands), width, k as nat),
            ),
    )
}

/// The first `m` bands, joined in band order, are the image's pixels in
/// row-major order up to the first row of band `m`.
proof fn lemma_band_prefix(width: nat, height: nat, bands: nat, m: nat)
    requires
        bands > 0,
        width > 0,
        m <= bands,
        width * height <= usize::MAX,
    ensures
        pixels_by_band(width, height, bands).take(m as int).flatten() == image_pixels(
            width,
            band_start(m, height, bands) * width,
        ),
    decreases m,
{
    let all = pixels_by_band(width, height, bands);
    if m == 0 {
        assert(band_start(0, height, bands) == 0) by {
            assert(0 * rows_per_band_spec(height, bands) == 0);
        }
        assert(all.take(0) =~= Seq::<Seq<(usize, usize)>>::empty());
        assert(image_pixels(width, 0) =~= Seq::<(usize, usize)>::empty());
    } else {
        let i = (m - 1) as nat;
        lemma_band_prefix(width, height, bands, i);
        lemma_band_step(i, height, bands);
        let start = band_start(i, height, bands);
        let len = band_len(i, height, bands);
        let part = all[i as int];
        assert(all.take(m as int) =~= all.take(i as int).push(part));
        all.take(i as int).lemma_flatten_push(part);
        assert((start + len) * width == start * width + len * width) by (nonlinear_arith);
        assert forall|k: int| 0 <= k < len * width implies #[trigger] part[k] == band_pixel(
            0,
            width,
            (start * width + k) as nat,
        ) by {
            lemma_band_pixel_shift(start, width, k as nat);
        }
        assert(image_pixels(width, start * width) + part =~= image_pixels(
            width,
            band_start(m, height, bands) * width,
        ));
    }
}

/// The framebuffer does not depend on which worker finishes first: joining
/// every band's pixels in band order lists each pixel of the image exactly
/// once, in row-major order.
pub proof fn lemma_bands_assemble_row_major(width: nat, height: nat, bands: nat)
    requires
        bands > 0,
        width * height <= usize::MAX,
    ensures
        pixels_by_band(width, height, bands).flatten() == image_pixels(width, width * height),
{
    let all = pixels_by_band(width, height, bands);
    assert(all.take(bands as int) =~= all);
    if width == 0 {
        assert forall|i: int| 0 <= i < bands implies #[trigger] all[i] =~= Seq::<
            (usize, usize),
        >::empty() by {
            assert(band_len(i as nat, height, bands) * 0 == 0);
        }
        lemma_flatten_empty_parts(all);
        assert(image_pixels(width, width * height) =~= Seq::<(usize, usize)>::empty());
    } else {
        lemma_band_prefix(width, height, bands, bands);
        lemma_band_end(height, bands);
        assert(height * width == width * height) by (nonlinear_arith);
    }
}

/// Joining parts that are all empty gives nothing.
proof fn lemma_flatten_empty_parts<A>(parts: Seq<Seq<A>>)
    requires
        forall|i: int| 0 <= i < parts.len() ==> #[trigger] parts[i] == Seq::<A>::empty(),
    ensures
        parts.flatten() == Seq::<A>::empty(),
    decreases parts.len(),
{
    if parts.len() > 0 {
        lemma_flatten_empty_parts(parts.drop_first());
        assert(parts.flatten() == parts[0] + parts.drop_first().flatten());
        assert(parts.flatten() =~= Seq::<A>::empty());
    }
}

/// The contents of the band buffers, in band order.
pub open spec fn buffer_views<T>(parts: Seq<Vec<T>>) -> Seq<Seq<T>> {
    parts.map_values(|p: Vec<T>| p@)
}

/// Joins the workers' buffers into one framebuffer, strictly in band order,
/// whatever order the workers finished in.
pub fn assemble<T>(parts: Vec<Vec<T>>) -> (r: Vec<T>)
    ensures
        r@ == buffer_views(parts@).flatten(),
{
    let ghost all = parts@;
    let mut rest = parts;
    let mut r: Vec<T> = Vec::new();
    let n = rest.len();
    for i in 0..n
        invariant
            n == all.len(),
            rest@ == all.skip(i as int),
            r@ == buffer_views(all.take(i as int)).flatten(),
    {
        let mut part = rest.remove(0);
        proof {
            assert(all.take(i + 1) == all.take(i as int).push(part));
            assert(buffer_views(all.take(i + 1)) == buffer_views(all.take(i as int)).push(part@));
            buffer_views(all.take(i as int)).lemma_flatten_push(part@);
            assert(rest@ == all.skip(i + 1));
        }
        r.append(&mut part);
    }
    assert(all.take(n as int) == all);
    r
}

} // verus!
