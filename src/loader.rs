//! Turns the pixel payload of an image file, with its declared shape, into a
//! single image plane.
use vstd::prelude::*;

use crate::error::ImageError;
use crate::image::Image;

verus! {

/// Whether a declared shape has an accepted number of axes: a plane (rows,
/// cols) or a cube (frames, rows, cols).
pub open spec fn supported_axes(shape: Seq<usize>) -> bool {
    shape.len() == 2 || shape.len() == 3
}

/// The number of values a payload of shape `shape` holds: the product of
/// its extents.
pub open spec fn extent(shape: Seq<usize>) -> int
    decreases shape.len(),
{
    if shape.len() == 0 {
        1
    } else {
        extent(shape.drop_last()) * shape.last()
    }
}

/// The product of the extents that are not zero.
spec fn nonzero_extent(shape: Seq<usize>) -> int
    decreases shape.len(),
{
    if shape.len() == 0 {
        1
    } else {
        nonzero_extent(shape.drop_last()) * (if shape.last() == 0 {
            1
        } else {
            shape.last() as int
        })
    }
}

/// The extent of a plane or a cube is the product of its two or three axes.
pub proof fn lemma_extent_of_axes(shape: Seq<usize>)
    ensures
        shape.len() == 2 ==> extent(shape) == shape[0] * shape[1],
        shape.len() == 3 ==> extent(shape) == shape[0] * shape[1] * shape[2],
{
    if shape.len() == 2 {
        let d1 = shape.drop_last();
        assert(extent(d1.drop_last()) == 1);
        assert(extent(d1) == shape[0]);
    } else if shape.len() == 3 {
        let d1 = shape.drop_last();
        let d2 = d1.drop_last();
        assert(extent(d2.drop_last()) == 1);
        assert(extent(d2) == shape[0]);
        assert(extent(d1) == shape[0] * shape[1]);
    }
}

/// The number of values that `shape` declares, or `None` where that number
/// does not fit in a `usize`.
fn payload_size(shape: &Vec<usize>) -> (r: Option<usize>)
    ensures
        r is Some ==> r->Some_0 == extent(shape@),
        r is None ==> extent(shape@) > usize::MAX,
{
    let n = shape.len();
    let mut prod: usize = 1;
    let mut overflow = false;
    let mut has_zero = false;
    let mut i: usize = 0;
    while i < n
        invariant
            n == shape@.len(),
            i <= n,
            nonzero_extent(shape@.take(i as int)) >= 1,
            has_zero ==> extent(shape@.take(i as int)) == 0,
            !has_zero ==> extent(shape@.take(i as int)) == nonzero_extent(shape@.take(i as int)),
            !overflow ==> prod == nonzero_extent(shape@.take(i as int)),
            overflow ==> nonzero_extent(shape@.take(i as int)) > usize::MAX,
        decreases n - i,
    {
        let ghost before = shape@.take(i as int);
        let ghost after = shape@.take(i + 1);
        assert(after.drop_last() =~= before);
        assert(after.last() == shape@[i as int]);
        let a = shape[i];
        let ghost nz = nonzero_extent(before);
        if a == 0 {
            has_zero = true;
        } else {
            assert(nz * a >= nz) by (nonlinear_arith)
                requires
                    a >= 1,
                    nz >= 1,
            ;
            if !overflow {
                match prod.checked_mul(a) {
                    Some(p) => {
                        prod = p;
                    },
                    None => {
                        overflow = true;
                    },
                }
            }
        }
        i = i + 1;
    }
    assert(shape@.take(n as int) =~= shape@);
    if has_zero {
        Some(0)
    } else if overflow {
        None
    } else {
        Some(prod)
    }
}

/// Whether a payload of `len` values fits the supported shape `shape` and has
/// a plane to take: a cube needs at least one frame.
pub open spec fn payload_fits(shape: Seq<usize>, len: int) -> bool {
    &&& extent(shape) == len
    &&& (shape.len() == 3 ==> shape[0] > 0)
}

/// Rows of the plane taken from a supported shape.
pub open spec fn plane_rows(shape: Seq<usize>) -> usize {
    shape[shape.len() - 2]
}

/// Columns of the plane taken from a supported shape.
pub open spec fn plane_cols(shape: Seq<usize>) -> usize {
    shape[shape.len() - 1]
}

/// Where the plane starts in the payload: a plane is used whole, a cube
/// gives its last frame.
pub open spec fn plane_offset(shape: Seq<usize>) -> int {
    if shape.len() == 3 {
        (shape[0] - 1) * (shape[1] * shape[2])
    } else {
        0
    }
}

/// The pixels of the plane that a fitting payload gives.
pub open spec fn plane_pixels<T>(shape: Seq<usize>, data: Seq<T>) -> Seq<T> {
    data.subrange(
        plane_offset(shape),
        plane_offset(shape) + plane_rows(shape) * plane_cols(shape),
    )
}

/// Reshapes a flat payload by its declared shape and keeps one plane of it.
///
/// A payload whose length differs from what the shape declares gives
/// `MalformedData`. A payload that fits, with neither two nor three axes,
/// gives `UnsupportedShape` with the shape. A two-axis payload is the image
/// itself; of a three-axis cube the last frame along the first axis is kept,
/// and a cube without frames gives `MalformedData`.
pub fn image_from_payload<T: Copy>(shape: &Vec<usize>, data: Vec<T>) -> (r: Result<
    Image<T>,
    ImageError,
>)
    ensures
        extent(shape@) != data@.len() ==> (r is Err && r->Err_0 is MalformedData),
        extent(shape@) == data@.len() && !supported_axes(shape@) ==> (r is Err
            && r->Err_0 is UnsupportedShape && r->Err_0->UnsupportedShape_0@ == shape@),
        supported_axes(shape@) && !payload_fits(shape@, data@.len() as int) ==> (r is Err
            && r->Err_0 is MalformedData),
        supported_axes(shape@) && payload_fits(shape@, data@.len() as int) ==> (r is Ok
            && r->Ok_0.wf() && r->Ok_0.rows == plane_rows(shape@) && r->Ok_0.cols == plane_cols(
            shape@) && r->Ok_0.pixels@ == plane_pixels(shape@, data@)),
{
    let len = data.len();
    match payload_size(shape) {
        Some(total) => {
            if total != len {
                return Err(ImageError::MalformedData);
            }
        },
        None => {
            return Err(ImageError::MalformedData);
        },
    }
    let ndim = shape.len();
    if ndim != 2 && ndim != 3 {
        let kept = shape.clone();
        assert(kept@ =~= shape@);
        return Err(ImageError::UnsupportedShape(kept));
    }
    proof {
        lemma_extent_of_axes(shape@);
    }
    let rows = shape[ndim - 2];
    let cols = shape[ndim - 1];
    if ndim == 2 {
        let plane = rows * cols;
        assert(data@.subrange(0, plane as int) =~= data@);
        return Ok(Image { rows, cols, pixels: data });
    }
    let frames = shape[0];
    if frames == 0 {
        return Err(ImageError::MalformedData);
    }
    assert(frames * rows * cols == frames * (rows * cols)) by (nonlinear_arith);
    assert(frames * (rows * cols) >= rows * cols) by (nonlinear_arith)
        requires
            frames >= 1,
            rows * cols >= 0,
    ;
    let plane = rows * cols;
    assert((frames - 1) * plane + plane == frames * plane) by (nonlinear_arith);
    assert((frames - 1) * plane >= 0) by (nonlinear_arith)
        requires
            frames >= 1,
    ;
    let offset = (frames - 1) * plane;
    let mut pixels: Vec<T> = Vec::with_capacity(plane);
    let mut i: usize = 0;
    while i < plane
        invariant
            i <= plane,
            offset + plane == len,
            len == data@.len(),
            pixels@ == data@.subrange(offset as int, offset + i),
        decreases plane - i,
    {
        pixels.push(data[offset + i]);
        i = i + 1;
        assert(pixels@ =~= data@.subrange(offset as int, offset + i));
    }
    Ok(Image { rows, cols, pixels })
}

/// A cube of `k` frames of `h` by `w` pixels gives the same plane as a plain
/// image that holds its last frame.
pub proof fn law_cube_gives_last_frame<T>(k: usize, h: usize, w: usize, data: Seq<T>)
    requires
        k > 0,
        data.len() == k * h * w,
    ensures
        ({
            let cube = seq![k, h, w];
            let frame = seq![h, w];
            let last = data.subrange((k - 1) * (h * w), k * (h * w));
            &&& supported_axes(cube) && supported_axes(frame)
            &&& payload_fits(cube, data.len() as int)
            &&& payload_fits(frame, last.len() as int)
            &&& plane_rows(cube) == plane_rows(frame)
            &&& plane_cols(cube) == plane_cols(frame)
            &&& plane_pixels(cube, data) == plane_pixels(frame, last)
        }),
{
    let cube = seq![k, h, w];
    let frame = seq![h, w];
    lemma_extent_of_axes(cube);
    lemma_extent_of_axes(frame);
    assert(k * h * w == k * (h * w)) by (nonlinear_arith);
    assert((k - 1) * (h * w) + h * w == k * (h * w)) by (nonlinear_arith);
    assert((k - 1) * (h * w) >= 0) by (nonlinear_arith)
        requires
            k > 0,
    ;
    let last = data.subrange((k - 1) * (h * w), k * (h * w));
    assert(plane_pixels(cube, data) =~= plane_pixels(frame, last));
}

} // verus!
