//! Filling a grayscale raster, row by row, from the escape time of each pixel's point.

use vstd::prelude::*;

verus! {

/// The number of steps after which a point that has not escaped counts as a
/// member of the set.
pub const ESCAPE_LIMIT: usize = 255;

/// The place of pixel (`col`, `row`) in a row-major buffer of rows `width` long.
pub open spec fn pixel_index(width: usize, col: usize, row: usize) -> int {
    row * width + col
}

/// The gray value of a point: black where it never escaped, else the brighter
/// the sooner it did. Only the low eight bits of the count are taken.
pub open spec fn shade_of(escape: Option<usize>) -> u8 {
    match escape {
        None => 0u8,
        Some(count) => (255 - count % 256) as u8,
    }
}

/// The gray values of a sequence of escape times.
pub open spec fn shades(escapes: Seq<Option<usize>>) -> Seq<u8> {
    Seq::new(escapes.len(), |i: int| shade_of(escapes[i]))
}

/// `e` is an escape time, within `ESCAPE_LIMIT` steps, of a point that
/// `point` gives for pixel (`col`, `row`).
pub open spec fn is_pixel_escape<Z, P: Fn(usize, usize) -> Z, E: Fn(Z, usize) -> Option<usize>>(
    point: P,
    escape: E,
    col: usize,
    row: usize,
    e: Option<usize>,
) -> bool {
    exists|c: Z| #[trigger]
        call_ensures(point, (col, row), c) && call_ensures(escape, (c, ESCAPE_LIMIT), e)
}

/// `escapes` holds, in row-major order, an escape time for each pixel of an
/// image of the size `bounds`.
pub open spec fn are_pixel_escapes<Z, P: Fn(usize, usize) -> Z, E: Fn(Z, usize) -> Option<usize>>(
    point: P,
    escape: E,
    bounds: (usize, usize),
    escapes: Seq<Option<usize>>,
) -> bool {
    &&& escapes.len() == bounds.0 * bounds.1
    &&& forall|col: usize, row: usize|
        col < bounds.0 && row < bounds.1 ==> is_pixel_escape(
            point,
            escape,
            col,
            row,
            escapes[#[trigger] pixel_index(bounds.0, col, row)],
        )
}

/// `pixels` is an image of the size `bounds` in which each pixel has the
/// shade of an escape time of its point.
pub open spec fn is_rendering<Z, P: Fn(usize, usize) -> Z, E: Fn(Z, usize) -> Option<usize>>(
    pixels: Seq<u8>,
    bounds: (usize, usize),
    point: P,
    escape: E,
) -> bool {
    exists|escapes: Seq<Option<usize>>| #[trigger]
        are_pixel_escapes(point, escape, bounds, escapes) && pixels == shades(escapes)
}

/// `point` gives one point for each pixel, and `escape` one escape time for
/// each point.
pub open spec fn is_determined<Z, P: Fn(usize, usize) -> Z, E: Fn(Z, usize) -> Option<usize>>(
    point: P,
    escape: E,
) -> bool {
    &&& forall|col: usize, row: usize, a: Z, b: Z|
        #[trigger] call_ensures(point, (col, row), a) && #[trigger] call_ensures(
            point,
            (col, row),
            b,
        ) ==> a == b
    &&& forall|c: Z, a: Option<usize>, b: Option<usize>|
        #[trigger] call_ensures(escape, (c, ESCAPE_LIMIT), a) && #[trigger] call_ensures(
            escape,
            (c, ESCAPE_LIMIT),
            b,
        ) ==> a == b
}

/// Row-major order: a pixel of an earlier row, or an earlier pixel of the
/// same row, has the smaller index.
pub proof fn lemma_pixel_order(width: usize, col: usize, row: usize, col2: usize, row2: usize)
    requires
        col < width,
        col2 < width,
        row < row2 || (row == row2 && col < col2),
    ensures
        0 <= pixel_index(width, col, row) < pixel_index(width, col2, row2),
{
    assert(row * width + col < row2 * width + col2) by (nonlinear_arith)
        requires
            col < width,
            col2 < width,
            row < row2 || (row == row2 && col < col2),
    ;
    assert(0 <= row * width) by (nonlinear_arith);
}

/// Every pixel of the image has a place in the buffer.
pub proof fn lemma_pixel_in_buffer(bounds: (usize, usize), col: usize, row: usize)
    requires
        col < bounds.0,
        row < bounds.1,
    ensures
        0 <= pixel_index(bounds.0, col, row) < bounds.0 * bounds.1,
{
    let (w, h) = bounds;
    assert(0 <= row * w + col < w * h) by (nonlinear_arith)
        requires
            col < w,
            row < h,
    ;
}

/// Every place of the buffer is that of one pixel: column `i % width` of row
/// `i / width`.
pub proof fn lemma_buffer_is_pixels(bounds: (usize, usize), i: int)
    requires
        0 <= i < bounds.0 * bounds.1,
    ensures
        bounds.0 > 0,
        0 <= i % (bounds.0 as int) < bounds.0,
        0 <= i / (bounds.0 as int) < bounds.1,
        pixel_index(bounds.0, (i % (bounds.0 as int)) as usize, (i / (bounds.0 as int)) as usize)
            == i,
{
    let w = bounds.0 as int;
    let h = bounds.1 as int;
    assert(w > 0) by (nonlinear_arith)
        requires
            0 <= i < w * h,
            w >= 0,
    ;
    assert(i == w * (i / w) + i % w && 0 <= i % w < w) by (nonlinear_arith)
        requires
            w > 0,
    ;
    assert(0 <= i / w < h) by (nonlinear_arith)
        requires
            w > 0,
            0 <= i < w * h,
            i == w * (i / w) + i % w,
            0 <= i % w < w,
    ;
    assert((i / w) * w == w * (i / w)) by (nonlinear_arith);
}

/// The gray value of a point with the given escape time.
pub fn shade(escape: Option<usize>) -> (r: u8)
    ensures
        r == shade_of(escape),
        escape matches Some(count) ==> count < 255 ==> r == 255 - count,
{
    match escape {
        None => 0,
        Some(count) => 255 - (count % 256) as u8,
    }
}

/// Renders an image of the size `bounds` into `pixels`: for each pixel, row by
/// row, `point` gives its point of the plane, `escape` the escape time of that
/// point within `ESCAPE_LIMIT` steps, and the pixel gets the shade of that time.
pub fn render<Z, P: Fn(usize, usize) -> Z, E: Fn(Z, usize) -> Option<usize>>(
    pixels: &mut [u8],
    bounds: (usize, usize),
    point: P,
    escape: E,
)
    requires
        old(pixels).len() == bounds.0 * bounds.1,
        forall|col: usize, row: usize|
            col < bounds.0 && row < bounds.1 ==> call_requires(point, (col, row)),
        forall|col: usize, row: usize, c: Z|
            col < bounds.0 && row < bounds.1 && call_ensures(point, (col, row), c)
                ==> call_requires(escape, (c, ESCAPE_LIMIT)),
    ensures
        is_rendering(final(pixels)@, bounds, point, escape),
{
    let (width, height) = bounds;
    let ghost mut escapes: Seq<Option<usize>> = Seq::empty();
    let mut row: usize = 0;
    while row < height
        invariant
            bounds == (width, height),
            pixels.len() == width * height,
            row <= height,
            escapes.len() == row * width,
            escapes.len() <= pixels.len(),
            forall|col: usize, row: usize|
                col < bounds.0 && row < bounds.1 ==> call_requires(point, (col, row)),
            forall|col: usize, row: usize, c: Z|
                col < bounds.0 && row < bounds.1 && call_ensures(point, (col, row), c)
                    ==> call_requires(escape, (c, ESCAPE_LIMIT)),
            forall|c: usize, r: usize|
                c < width && r < row ==> is_pixel_escape(
                    point,
                    escape,
                    c,
                    r,
                    escapes[#[trigger] pixel_index(width, c, r)],
                ),
            forall|i: int| 0 <= i < escapes.len() ==> pixels@[i] == shade_of(#[trigger] escapes[i]),
        decreases height - row,
    {
        let mut col: usize = 0;
        while col < width
            invariant
                bounds == (width, height),
                pixels.len() == width * height,
                    row < height,
                col <= width,
                escapes.len() == row * width + col,
                escapes.len() <= pixels.len(),
                forall|col: usize, row: usize|
                    col < bounds.0 && row < bounds.1 ==> call_requires(point, (col, row)),
                forall|col: usize, row: usize, c: Z|
                    col < bounds.0 && row < bounds.1 && call_ensures(point, (col, row), c)
                        ==> call_requires(escape, (c, ESCAPE_LIMIT)),
                forall|c: usize, r: usize|
                    c < width && (r < row || (r == row && c < col)) ==> is_pixel_escape(
                        point,
                        escape,
                        c,
                        r,
                        escapes[#[trigger] pixel_index(width, c, r)],
                    ),
                forall|i: int|
                    0 <= i < escapes.len() ==> pixels@[i] == shade_of(#[trigger] escapes[i]),
            decreases width - col,
        {
            proof {
                lemma_pixel_in_buffer(bounds, col, row);
                assert(0 <= row * width) by (nonlinear_arith);
            }
            let c = point(col, row);
            let e = escape(c, ESCAPE_LIMIT);
            let index: usize = row * width + col;
            pixels[index] = shade(e);
            proof {
                let before = escapes;
                escapes = before.push(e);
                assert(is_pixel_escape(point, escape, col, row, e));
                assert forall|c: usize, r: usize|
                    c < width && (r < row || (r == row && c < col + 1)) implies is_pixel_escape(
                    point,
                    escape,
                    c,
                    r,
                    escapes[#[trigger] pixel_index(width, c, r)],
                ) by {
                    if r < row || c < col {
                        lemma_pixel_order(width, c, r, col, row);
                        assert(escapes[pixel_index(width, c, r)] == before[pixel_index(
                            width,
                            c,
                            r,
                        )]);
                    }
                }
                assert forall|i: int| 0 <= i < escapes.len() implies pixels@[i] == shade_of(
                    #[trigger] escapes[i],
                ) by {
                    if i < before.len() {
                        assert(escapes[i] == before[i]);
                    }
                }
            }
            col = col + 1;
        }
        proof {
            assert((row + 1) * width == row * width + width) by (nonlinear_arith);
            assert((row + 1) * width <= height * width) by (nonlinear_arith)
                requires
                    row < height,
            ;
            assert(height * width == width * height) by (nonlinear_arith);
        }
        row = row + 1;
    }
    proof {
        assert(height * width == width * height) by (nonlinear_arith);
        assert(pixels@ =~= shades(escapes));
        assert(are_pixel_escapes(point, escape, bounds, escapes));
    }
}

/// Rendering is determined by its inputs: where `point` and `escape` give one
/// result for each argument, two renderings of one image hold the same bytes.
pub proof fn lemma_render_deterministic<
    Z,
    P: Fn(usize, usize) -> Z,
    E: Fn(Z, usize) -> Option<usize>,
>(first: Seq<u8>, second: Seq<u8>, bounds: (usize, usize), point: P, escape: E)
    requires
        is_determined(point, escape),
        is_rendering(first, bounds, point, escape),
        is_rendering(second, bounds, point, escape),
    ensures
        first == second,
{
    let a = choose|escapes: Seq<Option<usize>>| #[trigger]
        are_pixel_escapes(point, escape, bounds, escapes) && first == shades(escapes);
    let b = choose|escapes: Seq<Option<usize>>| #[trigger]
        are_pixel_escapes(point, escape, bounds, escapes) && second == shades(escapes);
    assert forall|i: int| 0 <= i < a.len() implies a[i] == b[i] by {
        lemma_buffer_is_pixels(bounds, i);
        let col = (i % (bounds.0 as int)) as usize;
        let row = (i / (bounds.0 as int)) as usize;
        assert(pixel_index(bounds.0, col, row) == i);
        assert(is_pixel_escape(point, escape, col, row, a[i]));
        assert(is_pixel_escape(point, escape, col, row, b[i]));
    }
    assert(a =~= b);
}

/// A rendering holds one byte for each pixel, and the byte of pixel
/// (`col`, `row`) is the shade of an escape time of its point.
pub proof fn lemma_rendering_pixel<Z, P: Fn(usize, usize) -> Z, E: Fn(Z, usize) -> Option<usize>>(
    pixels: Seq<u8>,
    bounds: (usize, usize),
    point: P,
    escape: E,
    col: usize,
    row: usize,
)
    requires
        is_rendering(pixels, bounds, point, escape),
        col < bounds.0,
        row < bounds.1,
    ensures
        pixels.len() == bounds.0 * bounds.1,
        0 <= pixel_index(bounds.0, col, row) < pixels.len(),
        exists|e: Option<usize>| #[trigger]
            is_pixel_escape(point, escape, col, row, e) && pixels[pixel_index(bounds.0, col, row)]
                == shade_of(e),
{
    let escapes = choose|escapes: Seq<Option<usize>>| #[trigger]
        are_pixel_escapes(point, escape, bounds, escapes) && pixels == shades(escapes);
    lemma_pixel_in_buffer(bounds, col, row);
    let i = pixel_index(bounds.0, col, row);
    assert(is_pixel_escape(point, escape, col, row, escapes[i]));
    assert(pixels[i] == shade_of(escapes[i]));
}

} // verus!
