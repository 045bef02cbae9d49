//! Subtraction of a reference mean from each image of a subject list.
use vstd::prelude::*;

use crate::error::ImageError;
use crate::image::Image;
use crate::mean::{
    all_void, all_wf, compute_mean_image, is_mean, mean_outcome, pixelwise, shapes_agree, total,
};

verus! {

/// One loaded image file: its plane and the two header values that could be
/// read from it.
#[derive(Debug, Clone)]
pub struct ImageRecord<T, R, J> {
    pub image: Image<T>,
    pub rotation_angle: Option<R>,
    pub timestamp: Option<J>,
}

/// One corrected image, with its header values resolved to concrete ones.
#[derive(Debug, Clone)]
pub struct ResultRecord<T, R, J> {
    pub image: Image<T>,
    pub rotation_angle: R,
    pub timestamp: J,
}

/// The value of an optional header field, or its fallback when absent.
pub open spec fn resolved<V>(field: Option<V>, fallback: V) -> V {
    match field {
        Some(v) => v,
        None => fallback,
    }
}

/// `out` is `record` with `mean` subtracted from its image and its header
/// fields resolved against the fallbacks.
pub open spec fn corrected<T, R, J, S: Fn(T, T) -> T>(
    record: ImageRecord<T, R, J>,
    mean: Image<T>,
    sub: S,
    rotation_fallback: R,
    timestamp_fallback: J,
    out: ResultRecord<T, R, J>,
) -> bool {
    &&& out.image.rows == record.image.rows
    &&& out.image.cols == record.image.cols
    &&& out.image.wf()
    &&& pixelwise(sub, record.image.pixels@, mean.pixels@, out.image.pixels@)
    &&& out.rotation_angle == resolved(record.rotation_angle, rotation_fallback)
    &&& out.timestamp == resolved(record.timestamp, timestamp_fallback)
}

/// Every subject image has the shape of the mean.
pub open spec fn subjects_fit<T, R, J>(subjects: Seq<ImageRecord<T, R, J>>, mean: Image<T>) -> bool {
    forall|i: int| 0 <= i < subjects.len() ==> (#[trigger] subjects[i]).image.same_shape(&mean)
}

/// What subtracting `mean` from every subject gives: `ShapeMismatch` when a
/// subject differs from it in shape, else one corrected record per subject,
/// in the subjects' order.
pub open spec fn subtraction_outcome<T, R, J, S: Fn(T, T) -> T>(
    subjects: Seq<ImageRecord<T, R, J>>,
    mean: Image<T>,
    sub: S,
    rotation_fallback: R,
    timestamp_fallback: J,
    r: Result<Vec<ResultRecord<T, R, J>>, ImageError>,
) -> bool {
    if !subjects_fit(subjects, mean) {
        r is Err && r->Err_0 is ShapeMismatch
    } else {
        &&& r is Ok
        &&& r->Ok_0@.len() == subjects.len()
        &&& forall|i: int|
            0 <= i < subjects.len() ==> #[trigger] corrected(
                subjects[i],
                mean,
                sub,
                rotation_fallback,
                timestamp_fallback,
                r->Ok_0@[i],
            )
    }
}

/// Subtracts `mean` from `image` pixel by pixel; the two must agree in shape.
pub fn subtract_image<T: Copy, S: Fn(T, T) -> T>(image: &Image<T>, mean: &Image<T>, sub: &S) -> (r:
    Result<Image<T>, ImageError>)
    requires
        image.wf(),
        mean.wf(),
        total(*sub),
    ensures
        !image.same_shape(mean) ==> r == Err::<Image<T>, ImageError>(
            ImageError::ShapeMismatch {
                left: (image.rows, image.cols),
                right: (mean.rows, mean.cols),
            },
        ),
        image.same_shape(mean) ==> (r is Ok && r->Ok_0.wf() && r->Ok_0.rows == image.rows
            && r->Ok_0.cols == image.cols && pixelwise(*sub, image.pixels@, mean.pixels@, r->Ok_0.pixels@)),
{
    if image.rows != mean.rows || image.cols != mean.cols {
        return Err(
            ImageError::ShapeMismatch {
                left: (image.rows, image.cols),
                right: (mean.rows, mean.cols),
            },
        );
    }
    let pixels = crate::mean::zip_with(&image.pixels, &mean.pixels, sub);
    Ok(Image { rows: image.rows, cols: image.cols, pixels })
}

/// Corrects one record: subtracts the mean from its image and resolves its
/// header fields, absent ones to the fallbacks.
pub fn correct_record<T: Copy, R: Copy, J: Copy, S: Fn(T, T) -> T>(
    record: &ImageRecord<T, R, J>,
    mean: &Image<T>,
    sub: &S,
    rotation_fallback: R,
    timestamp_fallback: J,
) -> (r: Result<ResultRecord<T, R, J>, ImageError>)
    requires
        record.image.wf(),
        mean.wf(),
        total(*sub),
    ensures
        !record.image.same_shape(mean) ==> r is Err && r->Err_0 is ShapeMismatch,
        record.image.same_shape(mean) ==> r is Ok && corrected(
            *record,
            *mean,
            *sub,
            rotation_fallback,
            timestamp_fallback,
            r->Ok_0,
        ),
{
    let image = match subtract_image(&record.image, mean, sub) {
        Ok(i) => i,
        Err(e) => {
            return Err(e);
        },
    };
    let rotation_angle = match record.rotation_angle {
        Some(v) => v,
        None => rotation_fallback,
    };
    let timestamp = match record.timestamp {
        Some(v) => v,
        None => timestamp_fallback,
    };
    Ok(ResultRecord { image, rotation_angle, timestamp })
}

/// Every subject record is well formed.
pub open spec fn records_wf<T, R, J>(subjects: Seq<ImageRecord<T, R, J>>) -> bool {
    forall|i: int| 0 <= i < subjects.len() ==> (#[trigger] subjects[i]).image.wf()
}

/// Subtracts `mean` from every subject, in order; the first subject that
/// differs from it in shape fails the whole batch.
pub fn subtract_mean<T: Copy, R: Copy, J: Copy, S: Fn(T, T) -> T>(
    subjects: &Vec<ImageRecord<T, R, J>>,
    mean: &Image<T>,
    sub: &S,
    rotation_fallback: R,
    timestamp_fallback: J,
) -> (r: Result<Vec<ResultRecord<T, R, J>>, ImageError>)
    requires
        records_wf(subjects@),
        mean.wf(),
        total(*sub),
    ensures
        subtraction_outcome(subjects@, *mean, *sub, rotation_fallback, timestamp_fallback, r),
{
    let n = subjects.len();
    let mut out: Vec<ResultRecord<T, R, J>> = Vec::with_capacity(n);
    let mut i: usize = 0;
    while i < n
        invariant
            n == subjects@.len(),
            i <= n,
            records_wf(subjects@),
            mean.wf(),
            total(*sub),
            out@.len() == i,
            forall|j: int| 0 <= j < i ==> (#[trigger] subjects@[j]).image.same_shape(mean),
            forall|j: int|
                0 <= j < i ==> #[trigger] corrected(
                    subjects@[j],
                    *mean,
                    *sub,
                    rotation_fallback,
                    timestamp_fallback,
                    out@[j],
                ),
        decreases n - i,
    {
        match correct_record(&subjects[i], mean, sub, rotation_fallback, timestamp_fallback) {
            Ok(rec) => {
                out.push(rec);
            },
            Err(e) => {
                return Err(e);
            },
        }
        i = i + 1;
    }
    Ok(out)
}

/// The whole pipeline: the mean of `references`, subtracted from every
/// subject. A failure of the mean fails the call with the same error; so
/// does a subject whose shape differs from the mean's.
pub fn subtract_mean_from_list<
    T: Copy,
    R: Copy,
    J: Copy,
    F: Fn(T, T) -> T,
    D: Fn(T, usize) -> T,
    S: Fn(T, T) -> T,
>(
    subjects: &Vec<ImageRecord<T, R, J>>,
    references: &Vec<Image<T>>,
    add: &F,
    div: &D,
    sub: &S,
    rotation_fallback: R,
    timestamp_fallback: J,
) -> (r: Result<Vec<ResultRecord<T, R, J>>, ImageError>)
    requires
        records_wf(subjects@),
        all_wf(references@),
        total(*add),
        forall|x: T, n: usize| #[trigger] div.requires((x, n)),
        total(*sub),
    ensures
        all_void(references@) ==> r is Err && r->Err_0 is EmptyInput,
        !all_void(references@) && !shapes_agree(references@) ==> r is Err && r->Err_0 is ShapeMismatch,
        !all_void(references@) && shapes_agree(references@) ==> exists|m: Image<T>|
            #[trigger] is_mean(references@, *add, *div, m) && subtraction_outcome(
                subjects@,
                m,
                *sub,
                rotation_fallback,
                timestamp_fallback,
                r,
            ),
{
    let mean = match compute_mean_image(references, add, div) {
        Ok(m) => m,
        Err(e) => {
            return Err(e);
        },
    };
    let r = subtract_mean(subjects, &mean, sub, rotation_fallback, timestamp_fallback);
    assert(mean_outcome(references@, *add, *div, Ok::<Image<T>, ImageError>(mean)));
    assert(is_mean(references@, *add, *div, mean));
    r
}

} // verus!
