//! The mean of a set of images, as a fold over accumulators.
use vstd::prelude::*;

use crate::error::ImageError;
use crate::image::Image;

verus! {

/// The pixel operation can be applied to any two values.
pub open spec fn total<T, F: Fn(T, T) -> T>(op: F) -> bool {
    forall|x: T, y: T| #[trigger] op.requires((x, y))
}

/// `r` is `op` applied to `a` and `b` position by position.
pub open spec fn pixelwise<T, F: Fn(T, T) -> T>(op: F, a: Seq<T>, b: Seq<T>, r: Seq<T>) -> bool {
    &&& a.len() == b.len()
    &&& r.len() == a.len()
    &&& forall|i: int| 0 <= i < r.len() ==> op.ensures((a[i], b[i]), #[trigger] r[i])
}

/// Applies `op` position by position to two buffers of one length.
pub(crate) fn zip_with<T: Copy, F: Fn(T, T) -> T>(a: &Vec<T>, b: &Vec<T>, op: &F) -> (r: Vec<T>)
    requires
        a@.len() == b@.len(),
        total(*op),
    ensures
        pixelwise(*op, a@, b@, r@),
{
    let n = a.len();
    let mut r: Vec<T> = Vec::with_capacity(n);
    let mut i: usize = 0;
    while i < n
        invariant
            n == a@.len(),
            n == b@.len(),
            i <= n,
            total(*op),
            r@.len() == i,
            forall|j: int| 0 <= j < i ==> op.ensures((a@[j], b@[j]), #[trigger] r@[j]),
        decreases n - i,
    {
        let v = op(a[i], b[i]);
        r.push(v);
        i = i + 1;
    }
    r
}

/// A partial sum of images with the number of images in it.
///
/// The accumulator without pixels is the identity of the fold: it stands for
/// no image at all, whatever shape it declares.
#[derive(Debug, Clone)]
pub struct Accumulator<T> {
    pub sum: Image<T>,
    pub count: usize,
}

impl<T> Accumulator<T> {
    pub open spec fn wf(&self) -> bool {
        &&& self.sum.wf()
        &&& (self.count == 0 <==> self.sum.is_void())
    }

    /// The identity of the fold: a zero-size sum of no image.
    pub fn identity() -> (r: Accumulator<T>)
        ensures
            r.wf(),
            r.count == 0,
            r.sum.rows == 0,
            r.sum.cols == 0,
    {
        Accumulator { sum: Image { rows: 0, cols: 0, pixels: Vec::new() }, count: 0 }
    }

    /// The accumulator of one image; a zero-size image is the identity.
    pub fn of_image(image: Image<T>) -> (r: Accumulator<T>)
        requires
            image.wf(),
        ensures
            r.wf(),
            r.sum == image,
            r.count == (if image.is_void() { 0usize } else { 1usize }),
    {
        let count: usize = if image.pixels.len() == 0 { 0 } else { 1 };
        Accumulator { sum: image, count }
    }
}

/// What combining `a` and `b` gives: an identity operand yields the other
/// one unchanged; two real sums must agree in shape and are added pixel by
/// pixel, their counts summed.
pub open spec fn combined<T, F: Fn(T, T) -> T>(
    a: Accumulator<T>,
    b: Accumulator<T>,
    add: F,
    r: Result<Accumulator<T>, ImageError>,
) -> bool {
    if a.sum.is_void() {
        r == Ok::<Accumulator<T>, ImageError>(b)
    } else if b.sum.is_void() {
        r == Ok::<Accumulator<T>, ImageError>(a)
    } else if !a.sum.same_shape(&b.sum) {
        r == Err::<Accumulator<T>, ImageError>(
            ImageError::ShapeMismatch {
                left: (a.sum.rows, a.sum.cols),
                right: (b.sum.rows, b.sum.cols),
            },
        )
    } else {
        &&& r is Ok
        &&& r->Ok_0.sum.rows == a.sum.rows
        &&& r->Ok_0.sum.cols == a.sum.cols
        &&& r->Ok_0.count == a.count + b.count
        &&& pixelwise(add, a.sum.pixels@, b.sum.pixels@, r->Ok_0.sum.pixels@)
    }
}

/// Combines two partial sums; the fold step of the mean.
pub fn combine<T: Copy, F: Fn(T, T) -> T>(a: Accumulator<T>, b: Accumulator<T>, add: &F) -> (r:
    Result<Accumulator<T>, ImageError>)
    requires
        a.wf(),
        b.wf(),
        a.count + b.count <= usize::MAX,
        total(*add),
    ensures
        combined(a, b, *add, r),
        r is Ok ==> r->Ok_0.wf(),
{
    if a.sum.pixels.len() == 0 {
        return Ok(b);
    }
    if b.sum.pixels.len() == 0 {
        return Ok(a);
    }
    if a.sum.rows != b.sum.rows || a.sum.cols != b.sum.cols {
        return Err(
            ImageError::ShapeMismatch {
                left: (a.sum.rows, a.sum.cols),
                right: (b.sum.rows, b.sum.cols),
            },
        );
    }
    let pixels = zip_with(&a.sum.pixels, &b.sum.pixels, add);
    Ok(
        Accumulator {
            sum: Image { rows: a.sum.rows, cols: a.sum.cols, pixels },
            count: a.count + b.count,
        },
    )
}

/// `r` is `div` applied to each value of `s` and the count `n`.
pub open spec fn scaled<T, D: Fn(T, usize) -> T>(div: D, s: Seq<T>, n: usize, r: Seq<T>) -> bool {
    &&& r.len() == s.len()
    &&& forall|i: int| 0 <= i < r.len() ==> div.ensures((s[i], n), #[trigger] r[i])
}

/// Divides a sum by its count: the mean of the images in it.
pub fn finish_mean<T: Copy, D: Fn(T, usize) -> T>(acc: &Accumulator<T>, div: &D) -> (r: Result<
    Image<T>,
    ImageError,
>)
    requires
        acc.wf(),
        forall|x: T, n: usize| #[trigger] div.requires((x, n)),
    ensures
        acc.count == 0 ==> r is Err && r->Err_0 is EmptyInput,
        acc.count > 0 ==> (r is Ok && r->Ok_0.wf() && r->Ok_0.rows == acc.sum.rows
            && r->Ok_0.cols == acc.sum.cols && scaled(*div, acc.sum.pixels@, acc.count, r->Ok_0.pixels@)),
{
    if acc.count == 0 {
        return Err(ImageError::EmptyInput);
    }
    let n = acc.sum.pixels.len();
    let mut r: Vec<T> = Vec::with_capacity(n);
    let mut i: usize = 0;
    while i < n
        invariant
            n == acc.sum.pixels@.len(),
            i <= n,
            forall|x: T, c: usize| #[trigger] div.requires((x, c)),
            r@.len() == i,
            forall|j: int| 0 <= j < i ==> div.ensures((acc.sum.pixels@[j], acc.count), #[trigger] r@[j]),
        decreases n - i,
    {
        let v = div(acc.sum.pixels[i], acc.count);
        r.push(v);
        i = i + 1;
    }
    Ok(Image { rows: acc.sum.rows, cols: acc.sum.cols, pixels: r })
}

/// The images that count towards a mean, in order: those with pixels.
pub open spec fn contributors<T>(images: Seq<Image<T>>) -> Seq<Image<T>>
    decreases images.len(),
{
    if images.len() == 0 {
        Seq::empty()
    } else {
        let rest = contributors(images.drop_last());
        if images.last().is_void() {
            rest
        } else {
            rest.push(images.last())
        }
    }
}

/// The values at position `p` of each image, in order.
pub open spec fn column<T>(images: Seq<Image<T>>, p: int) -> Seq<T> {
    Seq::new(images.len(), |k: int| images[k].pixels@[p])
}

/// `partial` holds the running sums of folding `add` from the left over `vals`.
pub open spec fn running_sums<T, F: Fn(T, T) -> T>(add: F, vals: Seq<T>, partial: Seq<T>) -> bool {
    &&& vals.len() > 0
    &&& partial.len() == vals.len()
    &&& partial[0] == vals[0]
    &&& forall|i: int| 1 <= i < vals.len() ==> add.ensures((partial[i - 1], vals[i]), #[trigger] partial[i])
}

/// `r` is what folding `add` from the left over the non-empty `vals` can give.
pub open spec fn folds_to<T, F: Fn(T, T) -> T>(add: F, vals: Seq<T>, r: T) -> bool {
    exists|partial: Seq<T>| #[trigger] running_sums(add, vals, partial) && partial.last() == r
}

/// A single value folds to itself.
pub proof fn lemma_fold_single<T, F: Fn(T, T) -> T>(add: F, vals: Seq<T>)
    requires
        vals.len() == 1,
    ensures
        folds_to(add, vals, vals[0]),
{
    assert(running_sums(add, vals, vals));
}

/// Folding one more value extends a fold by one application of `add`.
pub proof fn lemma_fold_push<T, F: Fn(T, T) -> T>(add: F, vals: Seq<T>, s: T, x: T, r: T)
    requires
        folds_to(add, vals, s),
        add.ensures((s, x), r),
    ensures
        folds_to(add, vals.push(x), r),
{
    let partial = choose|partial: Seq<T>| #[trigger] running_sums(add, vals, partial) && partial.last() == s;
    let longer = partial.push(r);
    assert forall|i: int| 1 <= i < vals.len() + 1 implies add.ensures(
        (longer[i - 1], vals.push(x)[i]),
        #[trigger] longer[i],
    ) by {
        if i < vals.len() {
            assert(longer[i] == partial[i]);
        }
    }
    assert(running_sums(add, vals.push(x), longer));
}

/// No image holds a pixel (the list may be empty).
pub open spec fn all_void<T>(images: Seq<Image<T>>) -> bool {
    forall|i: int| 0 <= i < images.len() ==> (#[trigger] images[i]).is_void()
}

/// All images with pixels have one shape.
pub open spec fn shapes_agree<T>(images: Seq<Image<T>>) -> bool {
    forall|i: int, j: int|
        0 <= i < images.len() && 0 <= j < images.len() && !(#[trigger] images[i]).is_void()
            && !(#[trigger] images[j]).is_void() ==> images[i].same_shape(&images[j])
}

/// `m` is the mean of `images`: it has the shape of the images with pixels,
/// and each of its pixels is the sum of theirs at that position divided by
/// how many they are.
pub open spec fn is_mean<T, F: Fn(T, T) -> T, D: Fn(T, usize) -> T>(
    images: Seq<Image<T>>,
    add: F,
    div: D,
    m: Image<T>,
) -> bool {
    let c = contributors(images);
    &&& c.len() > 0
    &&& m.wf()
    &&& m.rows == c[0].rows
    &&& m.cols == c[0].cols
    &&& forall|p: int|
        0 <= p < m.pixels@.len() ==> #[trigger] mean_value(add, div, column(c, p), m.pixels@[p])
}

/// `v` is a sum of `vals` divided by their number.
pub open spec fn mean_value<T, F: Fn(T, T) -> T, D: Fn(T, usize) -> T>(
    add: F,
    div: D,
    vals: Seq<T>,
    v: T,
) -> bool {
    exists|s: T| #[trigger] folds_to(add, vals, s) && div.ensures((s, vals.len() as usize), v)
}

/// What averaging `images` gives: `EmptyInput` when no image has a pixel,
/// `ShapeMismatch` when two images with pixels differ in shape, and else
/// their mean.
pub open spec fn mean_outcome<T, F: Fn(T, T) -> T, D: Fn(T, usize) -> T>(
    images: Seq<Image<T>>,
    add: F,
    div: D,
    r: Result<Image<T>, ImageError>,
) -> bool {
    if all_void(images) {
        r is Err && r->Err_0 is EmptyInput
    } else if !shapes_agree(images) {
        r is Err && r->Err_0 is ShapeMismatch
    } else {
        r is Ok && is_mean(images, add, div, r->Ok_0)
    }
}

/// Every image is well formed.
pub open spec fn all_wf<T>(images: Seq<Image<T>>) -> bool {
    forall|i: int| 0 <= i < images.len() ==> (#[trigger] images[i]).wf()
}

/// The identity is neutral on both sides of `combine`, so a reduction tree
/// of any shape may start from it, or insert it anywhere, without changing
/// the result (two identities combine to an identity).
pub proof fn law_identity_is_neutral<T, F: Fn(T, T) -> T>(
    e: Accumulator<T>,
    a: Accumulator<T>,
    add: F,
    left: Result<Accumulator<T>, ImageError>,
    right: Result<Accumulator<T>, ImageError>,
)
    requires
        e.wf(),
        e.count == 0,
        a.wf(),
        combined(e, a, add, left),
        combined(a, e, add, right),
    ensures
        left == Ok::<Accumulator<T>, ImageError>(a),
        !a.sum.is_void() ==> right == Ok::<Accumulator<T>, ImageError>(a),
        a.sum.is_void() ==> right == Ok::<Accumulator<T>, ImageError>(e),
{
}

/// When `add` does not care about the order of its operands, neither does
/// `combine`: swapping two partial sums gives the same outcome, unless both
/// are the identity, and swaps the shapes in a mismatch.
pub proof fn law_combine_commutes<T, F: Fn(T, T) -> T>(
    a: Accumulator<T>,
    b: Accumulator<T>,
    add: F,
    r: Result<Accumulator<T>, ImageError>,
)
    requires
        a.wf(),
        b.wf(),
        forall|x: T, y: T, v: T| #[trigger] add.ensures((x, y), v) ==> add.ensures((y, x), v),
        combined(a, b, add, r),
    ensures
        !(a.sum.is_void() && b.sum.is_void()) && (a.sum.is_void() || b.sum.is_void()
            || a.sum.same_shape(&b.sum)) ==> combined(b, a, add, r),
        !a.sum.is_void() && !b.sum.is_void() && !a.sum.same_shape(&b.sum) ==> combined(
            b,
            a,
            add,
            Err::<Accumulator<T>, ImageError>(
                ImageError::ShapeMismatch {
                    left: (b.sum.rows, b.sum.cols),
                    right: (a.sum.rows, a.sum.cols),
                },
            ),
        ),
{
    if !a.sum.is_void() && !b.sum.is_void() && a.sum.same_shape(&b.sum) {
        let c = r->Ok_0;
        assert forall|i: int| 0 <= i < c.sum.pixels@.len() implies add.ensures(
            (b.sum.pixels@[i], a.sum.pixels@[i]),
            #[trigger] c.sum.pixels@[i],
        ) by {
            assert(add.ensures((a.sum.pixels@[i], b.sum.pixels@[i]), c.sum.pixels@[i]));
        }
    }
}

/// The mean of no image at all is `EmptyInput`.
pub proof fn law_mean_of_nothing<T, F: Fn(T, T) -> T, D: Fn(T, usize) -> T>(
    add: F,
    div: D,
    r: Result<Image<T>, ImageError>,
)
    requires
        mean_outcome(Seq::<Image<T>>::empty(), add, div, r),
    ensures
        r is Err && r->Err_0 is EmptyInput,
{
}

/// The mean of a single image with pixels is that image, when dividing by a
/// count of one leaves a value as it is.
pub proof fn law_mean_of_one<T, F: Fn(T, T) -> T, D: Fn(T, usize) -> T>(
    x: Image<T>,
    add: F,
    div: D,
    r: Result<Image<T>, ImageError>,
)
    requires
        x.wf(),
        !x.is_void(),
        forall|v: T, w: T| #[trigger] div.ensures((v, 1usize), w) ==> w == v,
        mean_outcome(seq![x], add, div, r),
    ensures
        r is Ok,
        r->Ok_0.rows == x.rows,
        r->Ok_0.cols == x.cols,
        r->Ok_0.pixels@ == x.pixels@,
{
    let imgs = seq![x];
    assert(imgs.drop_last() =~= Seq::<Image<T>>::empty());
    assert(contributors(Seq::<Image<T>>::empty()) == Seq::<Image<T>>::empty());
    assert(imgs.last() == x);
    let c = contributors(imgs);
    assert(c =~= seq![x]);
    assert(!all_void(imgs)) by {
        assert(!imgs[0].is_void());
    }
    assert(shapes_agree(imgs));
    let m = r->Ok_0;
    assert forall|p: int| 0 <= p < m.pixels@.len() implies m.pixels@[p] == x.pixels@[p] by {
        assert(mean_value(add, div, column(c, p), m.pixels@[p]));
        let s = choose|s: T| #[trigger] folds_to(add, column(c, p), s) && div.ensures(
            (s, column(c, p).len() as usize),
            m.pixels@[p],
        );
        let partial = choose|partial: Seq<T>| #[trigger] running_sums(add, column(c, p), partial)
            && partial.last() == s;
        assert(partial.len() == 1);
        assert(s == x.pixels@[p]);
    }
    assert(m.pixels@ =~= x.pixels@);
}

/// A reference set in which two images with pixels differ in shape, such as
/// one of (10, 10) among others of (5, 5), is refused with `ShapeMismatch`:
/// the sum is never broadcast nor truncated.
pub proof fn law_mixed_shapes_refused<T, F: Fn(T, T) -> T, D: Fn(T, usize) -> T>(
    images: Seq<Image<T>>,
    i: int,
    j: int,
    add: F,
    div: D,
    r: Result<Image<T>, ImageError>,
)
    requires
        0 <= i < images.len(),
        0 <= j < images.len(),
        !images[i].is_void(),
        !images[j].is_void(),
        !images[i].same_shape(&images[j]),
        mean_outcome(images, add, div, r),
    ensures
        r is Err && r->Err_0 is ShapeMismatch,
{
    assert(!all_void(images));
    assert(!shapes_agree(images));
}

/// The mean of a list of images: the images are folded with `combine`, from
/// the identity, and the sum is divided by the number of images in it.
pub fn compute_mean_image<T: Copy, F: Fn(T, T) -> T, D: Fn(T, usize) -> T>(
    images: &Vec<Image<T>>,
    add: &F,
    div: &D,
) -> (r: Result<Image<T>, ImageError>)
    requires
        all_wf(images@),
        total(*add),
        forall|x: T, n: usize| #[trigger] div.requires((x, n)),
    ensures
        mean_outcome(images@, *add, *div, r),
{
    let n = images.len();
    let mut acc: Accumulator<T> = Accumulator::identity();
    let ghost mut first: int = 0;
    let mut k: usize = 0;
    while k < n
        invariant
            n == images@.len(),
            k <= n,
            all_wf(images@),
            total(*add),
            acc.wf(),
            acc.count <= k,
            acc.count == contributors(images@.take(k as int)).len(),
            acc.count == 0 <==> all_void(images@.take(k as int)),
            shapes_agree(images@.take(k as int)),
            acc.count > 0 ==> {
                &&& 0 <= first < k
                &&& !images@[first].is_void()
                &&& images@[first].same_shape(&acc.sum)
                &&& contributors(images@.take(k as int))[0].same_shape(&acc.sum)
                &&& forall|q: int| 0 <= q < k && !(#[trigger] images@[q]).is_void()
                    ==> images@[q].same_shape(&acc.sum)
                &&& forall|p: int| 0 <= p < acc.sum.pixels@.len() ==> #[trigger] folds_to(
                    *add,
                    column(contributors(images@.take(k as int)), p),
                    acc.sum.pixels@[p],
                )
            },
        decreases n - k,
    {
        let ghost before = acc;
        let ghost c = contributors(images@.take(k as int));
        let next = Accumulator::of_image(images[k].duplicate());
        assert(images@.take(k + 1).drop_last() =~= images@.take(k as int));
        assert(images@.take(k + 1).last() == images@[k as int]);
        let ghost c2 = contributors(images@.take(k + 1));
        match combine(acc, next, add) {
            Ok(s) => {
                acc = s;
            },
            Err(e) => {
                proof {
                    assert(images@[k as int].same_shape(&next.sum));
                    assert(!images@[first].same_shape(&images@[k as int]));
                }
                return Err(e);
            },
        }
        proof {
            let x = images@[k as int];
            if x.is_void() {
                assert(c2 == c);
            } else {
                assert(c2 == c.push(x));
                if before.count == 0 {
                    first = k as int;
                    assert forall|p: int| 0 <= p < acc.sum.pixels@.len() implies #[trigger] folds_to(
                        *add,
                        column(c2, p),
                        acc.sum.pixels@[p],
                    ) by {
                        assert(column(c2, p)[0] == acc.sum.pixels@[p]);
                        lemma_fold_single(*add, column(c2, p));
                    }
                } else {
                    assert forall|p: int| 0 <= p < acc.sum.pixels@.len() implies #[trigger] folds_to(
                        *add,
                        column(c2, p),
                        acc.sum.pixels@[p],
                    ) by {
                        let col = column(c2, p);
                        assert(col.last() == x.pixels@[p]);
                        lemma_fold_push(
                            *add,
                            column(c, p),
                            before.sum.pixels@[p],
                            col.last(),
                            acc.sum.pixels@[p],
                        );
                        assert(column(c, p).push(col.last()) =~= col);
                    }
                }
            }
            assert forall|q: int| 0 <= q < k + 1 && !(#[trigger] images@[q]).is_void()
                implies images@[q].same_shape(&acc.sum) by {
                if q < k {
                    assert(images@.take(k as int)[q] == images@[q]);
                }
            }
            assert forall|i: int| 0 <= i < k + 1 implies #[trigger] images@.take(k + 1)[i] == images@[i] by {}
            assert forall|i: int| 0 <= i < k implies #[trigger] images@.take(k as int)[i] == images@[i] by {}
        }
        k = k + 1;
    }
    assert(images@.take(n as int) =~= images@);
    let r = finish_mean(&acc, div);
    proof {
        if acc.count > 0 {
            let c = contributors(images@);
            let m = r->Ok_0;
            assert forall|p: int| 0 <= p < m.pixels@.len() implies #[trigger] mean_value(
                *add,
                *div,
                column(c, p),
                m.pixels@[p],
            ) by {
                assert(folds_to(*add, column(c, p), acc.sum.pixels@[p]));
                assert(div.ensures((acc.sum.pixels@[p], acc.count), m.pixels@[p]));
            }
        }
    }
    r
}

} // verus!
