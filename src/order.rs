//! The mean does not depend on the order of the images, nor on the shape of
//! the reduction tree that combines them, when pixel addition is exact.
use vstd::prelude::*;

use crate::image::Image;
use crate::error::ImageError;
use crate::mean::{combined, Accumulator, all_wf, column, contributors, folds_to, is_mean, mean_value, running_sums};

verus! {

/// The left fold of `plus` over a non-empty sequence.
pub open spec fn sum_of<T>(plus: spec_fn(T, T) -> T, vals: Seq<T>) -> T
    decreases vals.len(),
{
    if vals.len() <= 1 {
        vals[0]
    } else {
        plus(sum_of(plus, vals.drop_last()), vals.last())
    }
}

/// `add` computes `plus`.
pub open spec fn computes<T, F: Fn(T, T) -> T>(add: F, plus: spec_fn(T, T) -> T) -> bool {
    forall|x: T, y: T, v: T| #[trigger] add.ensures((x, y), v) ==> v == plus(x, y)
}

/// `plus` is associative.
pub open spec fn associative<T>(plus: spec_fn(T, T) -> T) -> bool {
    forall|x: T, y: T, z: T| #[trigger] plus(plus(x, y), z) == plus(x, plus(y, z))
}

/// What combining `c` into the outcome `x` of an earlier combination gives:
/// an earlier failure stands.
pub open spec fn combined_after<T, F: Fn(T, T) -> T>(
    x: Result<Accumulator<T>, ImageError>,
    c: Accumulator<T>,
    add: F,
    r: Result<Accumulator<T>, ImageError>,
) -> bool {
    match x {
        Ok(v) => combined(v, c, add, r),
        Err(e) => r == Err::<Accumulator<T>, ImageError>(e),
    }
}

/// What combining `a` with the outcome `y` of an earlier combination gives:
/// an earlier failure stands.
pub open spec fn combined_before<T, F: Fn(T, T) -> T>(
    a: Accumulator<T>,
    y: Result<Accumulator<T>, ImageError>,
    add: F,
    r: Result<Accumulator<T>, ImageError>,
) -> bool {
    match y {
        Ok(v) => combined(a, v, add, r),
        Err(e) => r == Err::<Accumulator<T>, ImageError>(e),
    }
}

/// When `add` computes an associative operation, `combine` is associative:
/// `(a + b) + c` and `a + (b + c)` both fail, or both give the same sum of the
/// same shape and count. So a reduction tree of any shape gives one result.
pub proof fn law_combine_associates<T, F: Fn(T, T) -> T>(
    a: Accumulator<T>,
    b: Accumulator<T>,
    c: Accumulator<T>,
    add: F,
    plus: spec_fn(T, T) -> T,
    ab: Result<Accumulator<T>, ImageError>,
    bc: Result<Accumulator<T>, ImageError>,
    r1: Result<Accumulator<T>, ImageError>,
    r2: Result<Accumulator<T>, ImageError>,
)
    requires
        a.wf(),
        b.wf(),
        c.wf(),
        computes(add, plus),
        associative(plus),
        combined(a, b, add, ab),
        combined_after(ab, c, add, r1),
        combined(b, c, add, bc),
        combined_before(a, bc, add, r2),
    ensures
        r1 is Ok <==> r2 is Ok,
        r1 is Ok ==> {
            &&& r1->Ok_0.sum.rows == r2->Ok_0.sum.rows
            &&& r1->Ok_0.sum.cols == r2->Ok_0.sum.cols
            &&& r1->Ok_0.count == r2->Ok_0.count
            &&& r1->Ok_0.sum.pixels@ == r2->Ok_0.sum.pixels@
        },
{
    if !a.sum.is_void() && !b.sum.is_void() && !c.sum.is_void() && a.sum.same_shape(&b.sum)
        && b.sum.same_shape(&c.sum) {
        let x = ab->Ok_0;
        let y = bc->Ok_0;
        let u = r1->Ok_0;
        let v = r2->Ok_0;
        assert forall|i: int| 0 <= i < u.sum.pixels@.len() implies u.sum.pixels@[i]
            == v.sum.pixels@[i] by {
            assert(add.ensures((a.sum.pixels@[i], b.sum.pixels@[i]), x.sum.pixels@[i]));
            assert(add.ensures((x.sum.pixels@[i], c.sum.pixels@[i]), u.sum.pixels@[i]));
            assert(add.ensures((b.sum.pixels@[i], c.sum.pixels@[i]), y.sum.pixels@[i]));
            assert(add.ensures((a.sum.pixels@[i], y.sum.pixels@[i]), v.sum.pixels@[i]));
            assert(plus(plus(a.sum.pixels@[i], b.sum.pixels@[i]), c.sum.pixels@[i]) == plus(
                a.sum.pixels@[i],
                plus(b.sum.pixels@[i], c.sum.pixels@[i]),
            ));
        }
        assert(u.sum.pixels@ =~= v.sum.pixels@);
    }
}

/// `plus` is commutative and associative.
pub open spec fn exact<T>(plus: spec_fn(T, T) -> T) -> bool {
    &&& forall|x: T, y: T| #[trigger] plus(x, y) == plus(y, x)
    &&& forall|x: T, y: T, z: T| #[trigger] plus(plus(x, y), z) == plus(x, plus(y, z))
}

proof fn lemma_running_prefix<T, F: Fn(T, T) -> T>(
    add: F,
    plus: spec_fn(T, T) -> T,
    vals: Seq<T>,
    partial: Seq<T>,
    i: int,
)
    requires
        computes(add, plus),
        running_sums(add, vals, partial),
        0 <= i < vals.len(),
    ensures
        partial[i] == sum_of(plus, vals.take(i + 1)),
    decreases i,
{
    if i > 0 {
        lemma_running_prefix(add, plus, vals, partial, i - 1);
        assert(vals.take(i + 1).drop_last() =~= vals.take(i));
        assert(add.ensures((partial[i - 1], vals[i]), partial[i]));
    }
}

/// A fold of an `add` that computes `plus` is the sum of the values.
proof fn lemma_fold_is_sum<T, F: Fn(T, T) -> T>(
    add: F,
    plus: spec_fn(T, T) -> T,
    vals: Seq<T>,
    s: T,
)
    requires
        computes(add, plus),
        folds_to(add, vals, s),
    ensures
        s == sum_of(plus, vals),
{
    let partial = choose|partial: Seq<T>| #[trigger] running_sums(add, vals, partial) && partial.last() == s;
    lemma_running_prefix(add, plus, vals, partial, vals.len() - 1);
    assert(vals.take(vals.len() as int) =~= vals);
}

/// Any one value can be taken out of an exact sum and added last.
proof fn lemma_sum_remove<T>(plus: spec_fn(T, T) -> T, t: Seq<T>, j: int)
    requires
        exact(plus),
        t.len() >= 2,
        0 <= j < t.len(),
    ensures
        sum_of(plus, t) == plus(sum_of(plus, t.remove(j)), t[j]),
    decreases t.len(),
{
    if j < t.len() - 1 {
        let d = t.drop_last();
        assert(t.remove(j).drop_last() =~= d.remove(j));
        assert(t.remove(j).last() == t.last());
        if d.len() == 1 {
            assert(d.remove(j).len() == 0);
            assert(t.remove(j) =~= seq![t.last()]);
            assert(sum_of(plus, d) == t[0]);
            assert(plus(t[0], t[1]) == plus(t[1], t[0]));
        } else {
            lemma_sum_remove(plus, d, j);
            let r = sum_of(plus, d.remove(j));
            assert(plus(plus(r, t[j]), t.last()) == plus(r, plus(t[j], t.last())));
            assert(plus(t[j], t.last()) == plus(t.last(), t[j]));
            assert(plus(plus(r, t.last()), t[j]) == plus(r, plus(t.last(), t[j])));
        }
    } else {
        assert(t.remove(j) =~= t.drop_last());
    }
}

/// Reordering images does not change the exact sum of their values at `p`.
proof fn lemma_column_sum_reordered<T>(
    plus: spec_fn(T, T) -> T,
    s: Seq<Image<T>>,
    t: Seq<Image<T>>,
    p: int,
)
    requires
        exact(plus),
        s.len() >= 1,
        s.to_multiset() == t.to_multiset(),
    ensures
        sum_of(plus, column(s, p)) == sum_of(plus, column(t, p)),
    decreases s.len(),
{
    s.to_multiset_ensures();
    t.to_multiset_ensures();
    let x = s.last();
    assert(s.contains(x)) by {
        assert(s[s.len() - 1] == x);
    }
    assert(t.to_multiset().count(x) > 0);
    let j = choose|j: int| 0 <= j < t.len() && t[j] == x;
    if s.len() == 1 {
        assert(t.len() == 1);
        assert(column(s, p) =~= column(t, p));
    } else {
        let s2 = s.drop_last();
        let t2 = t.remove(j);
        s2.to_multiset_ensures();
        assert(s2.push(x) =~= s);
        assert(s2.to_multiset() =~= s.to_multiset().remove(x));
        assert(t2.to_multiset() =~= t.to_multiset().remove(x));
        lemma_column_sum_reordered(plus, s2, t2, p);
        assert(column(s, p).drop_last() =~= column(s2, p));
        assert(column(t, p).remove(j) =~= column(t2, p));
        lemma_sum_remove(plus, column(t, p), j);
    }
}

/// Images with pixels all count towards a mean.
proof fn lemma_all_contribute<T>(s: Seq<Image<T>>)
    requires
        forall|i: int| 0 <= i < s.len() ==> !(#[trigger] s[i]).is_void(),
    ensures
        contributors(s) == s,
    decreases s.len(),
{
    if s.len() > 0 {
        lemma_all_contribute(s.drop_last());
        assert(s.drop_last().push(s.last()) =~= s);
    }
}

/// Images without pixels contribute nothing.
proof fn lemma_none_contribute<T>(s: Seq<Image<T>>)
    requires
        forall|i: int| 0 <= i < s.len() ==> (#[trigger] s[i]).is_void(),
    ensures
        contributors(s).len() == 0,
    decreases s.len(),
{
    if s.len() > 0 {
        lemma_none_contribute(s.drop_last());
        assert(s[s.len() - 1].is_void());
    }
}

/// In a list of well-formed images of one shape that has something to
/// average, every image has pixels.
proof fn lemma_one_shape_all_count<T>(s: Seq<Image<T>>)
    requires
        all_wf(s),
        forall|i: int| 0 <= i < s.len() ==> (#[trigger] s[i]).same_shape(&s[0]),
        contributors(s).len() > 0,
    ensures
        s.len() > 0,
        forall|i: int| 0 <= i < s.len() ==> !(#[trigger] s[i]).is_void(),
{
    if s.len() == 0 {
        lemma_none_contribute(s);
    } else if s[0].is_void() {
        assert forall|i: int| 0 <= i < s.len() implies (#[trigger] s[i]).is_void() by {
            assert(s[i].wf());
        }
        lemma_none_contribute(s);
    } else {
        assert forall|i: int| 0 <= i < s.len() implies !(#[trigger] s[i]).is_void() by {
            assert(s[i].wf() && s[0].wf());
        }
    }
}

/// A reordering of images that all have pixels and one shape has the same
/// property.
proof fn lemma_reordered_all_count<T>(s: Seq<Image<T>>, t: Seq<Image<T>>)
    requires
        s.len() > 0,
        forall|i: int| 0 <= i < s.len() ==> !(#[trigger] s[i]).is_void() && s[i].same_shape(&s[0]),
        t.to_multiset() == s.to_multiset(),
    ensures
        t.len() == s.len(),
        forall|i: int| 0 <= i < t.len() ==> !(#[trigger] t[i]).is_void() && t[i].same_shape(&s[0]),
{
    s.to_multiset_ensures();
    t.to_multiset_ensures();
    assert forall|i: int| 0 <= i < t.len() implies !(#[trigger] t[i]).is_void() && t[i].same_shape(
        &s[0],
    ) by {
        let x = t[i];
        assert(t.contains(x));
        assert(s.to_multiset().count(x) > 0);
        assert(s.contains(x));
        let k = choose|k: int| 0 <= k < s.len() && s[k] == x;
        assert(!s[k].is_void() && s[k].same_shape(&s[0]));
    }
}

/// Two means of reordered lists agree at each pixel.
proof fn lemma_pixel_agrees<T, F: Fn(T, T) -> T, D: Fn(T, usize) -> T>(
    c1: Seq<Image<T>>,
    c2: Seq<Image<T>>,
    add: F,
    div: D,
    plus: spec_fn(T, T) -> T,
    p: int,
    v1: T,
    v2: T,
)
    requires
        computes(add, plus),
        exact(plus),
        forall|s: T, n: usize, v: T, w: T|
            #[trigger] div.ensures((s, n), v) && #[trigger] div.ensures((s, n), w) ==> v == w,
        c1.len() >= 1,
        c2.to_multiset() == c1.to_multiset(),
        mean_value(add, div, column(c1, p), v1),
        mean_value(add, div, column(c2, p), v2),
    ensures
        v1 == v2,
{
    c1.to_multiset_ensures();
    c2.to_multiset_ensures();
    let s1 = choose|s: T| #[trigger] folds_to(add, column(c1, p), s) && div.ensures(
        (s, column(c1, p).len() as usize),
        v1,
    );
    let s2 = choose|s: T| #[trigger] folds_to(add, column(c2, p), s) && div.ensures(
        (s, column(c2, p).len() as usize),
        v2,
    );
    lemma_fold_is_sum(add, plus, column(c1, p), s1);
    lemma_fold_is_sum(add, plus, column(c2, p), s2);
    lemma_column_sum_reordered(plus, c1, c2, p);
}

/// With exact pixel addition and a division that gives one result, the mean
/// of a list of images of one shape is the same in any order of the list.
pub proof fn law_mean_order_free<T, F: Fn(T, T) -> T, D: Fn(T, usize) -> T>(
    images: Seq<Image<T>>,
    reordered: Seq<Image<T>>,
    add: F,
    div: D,
    plus: spec_fn(T, T) -> T,
    m1: Image<T>,
    m2: Image<T>,
)
    requires
        computes(add, plus),
        exact(plus),
        forall|s: T, n: usize, v: T, w: T|
            #[trigger] div.ensures((s, n), v) && #[trigger] div.ensures((s, n), w) ==> v == w,
        all_wf(images),
        forall|i: int| 0 <= i < images.len() ==> (#[trigger] images[i]).same_shape(&images[0]),
        reordered.to_multiset() == images.to_multiset(),
        is_mean(images, add, div, m1),
        is_mean(reordered, add, div, m2),
    ensures
        m1.rows == m2.rows,
        m1.cols == m2.cols,
        m1.pixels@ == m2.pixels@,
{
    lemma_one_shape_all_count(images);
    lemma_reordered_all_count(images, reordered);
    lemma_all_contribute(images);
    lemma_all_contribute(reordered);
    assert forall|p: int| 0 <= p < m1.pixels@.len() implies m1.pixels@[p] == m2.pixels@[p] by {
        assert(mean_value(add, div, column(contributors(images), p), m1.pixels@[p]));
        assert(mean_value(add, div, column(contributors(reordered), p), m2.pixels@[p]));
        lemma_pixel_agrees(images, reordered, add, div, plus, p, m1.pixels@[p], m2.pixels@[p]);
    }
    assert(m1.pixels@ =~= m2.pixels@);
}

} // verus!
