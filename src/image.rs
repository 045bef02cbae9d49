use vstd::prelude::*;

use crate::error::ImageError;

verus! {

/// A two-dimensional image, stored row by row.
#[derive(Debug, Clone)]
pub struct Image<T> {
    pub rows: usize,
    pub cols: usize,
    pub pixels: Vec<T>,
}

impl<T> Image<T> {
    /// The pixel buffer holds exactly one value per (row, column).
    pub open spec fn wf(&self) -> bool {
        self.pixels@.len() == self.rows * self.cols
    }

    pub open spec fn same_shape(&self, other: &Image<T>) -> bool {
        self.rows == other.rows && self.cols == other.cols
    }

    /// A zero-size image: it holds no pixel at all.
    pub open spec fn is_void(&self) -> bool {
        self.pixels@.len() == 0
    }

    /// Builds an image from its shape and its pixels in row-major order.
    pub fn new(rows: usize, cols: usize, pixels: Vec<T>) -> (r: Result<Image<T>, ImageError>)
        ensures
            pixels@.len() == rows * cols <==> r is Ok,
            r is Ok ==> (r->Ok_0.rows == rows && r->Ok_0.cols == cols
                && r->Ok_0.pixels@ == pixels@),
            r is Err ==> r->Err_0 is MalformedData,
    {
        let len = pixels.len();
        match rows.checked_mul(cols) {
            Some(n) => {
                if n == len {
                    Ok(Image { rows, cols, pixels })
                } else {
                    Err(ImageError::MalformedData)
                }
            },
            None => Err(ImageError::MalformedData),
        }
    }

    /// A copy of the image, pixel for pixel.
    pub fn duplicate(&self) -> (r: Image<T>)
        where T: Copy
        ensures
            r.rows == self.rows,
            r.cols == self.cols,
            r.pixels@ == self.pixels@,
    {
        let n = self.pixels.len();
        let mut pixels: Vec<T> = Vec::with_capacity(n);
        let mut i: usize = 0;
        while i < n
            invariant
                n == self.pixels@.len(),
                i <= n,
                pixels@ == self.pixels@.subrange(0, i as int),
            decreases n - i,
        {
            pixels.push(self.pixels[i]);
            i = i + 1;
            assert(pixels@ =~= self.pixels@.subrange(0, i as int));
        }
        assert(pixels@ =~= self.pixels@);
        Image { rows: self.rows, cols: self.cols, pixels }
    }

    pub fn shape(&self) -> (r: (usize, usize))
        ensures
            r == (self.rows, self.cols),
    {
        (self.rows, self.cols)
    }

    /// Whether the image holds no pixel.
    pub fn is_empty(&self) -> (r: bool)
        ensures
            r == self.is_void(),
    {
        self.pixels.len() == 0
    }
}

} // verus!
