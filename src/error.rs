use vstd::prelude::*;

verus! {

/// Every way an image operation can fail. Each one aborts the whole batch.
#[derive(Debug)]
pub enum ImageError {
    /// The file could not be opened or read; the text says why.
    IoError(String),
    /// The structure is there but does not hold a readable image, or the
    /// payload does not fit its declared shape.
    MalformedData,
    /// The image has neither two nor three axes; carries its shape.
    UnsupportedShape(Vec<usize>),
    /// Two images that must agree in shape do not: (rows, cols) of each.
    ShapeMismatch { left: (usize, usize), right: (usize, usize) },
    /// Nothing contributed to an average.
    EmptyInput,
}

} // verus!
