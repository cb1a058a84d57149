//! Transforms between coordinate systems (such as grid/logical <=> screen
//! pixels), in exact arithmetic.

use crate::fraction::{
    bounded, difference_of, lemma_over_bounded, lemma_plus_minus_bounded, lemma_ratio_sign,
    lemma_times_bounded, product_of, quotient_of, real_abs, spec_difference_of, spec_product_of,
    spec_quotient_of, spec_sum_of, sum_of, Fraction,
};
use vstd::prelude::*;

verus! {

/// A point of the plane, as a pair of real numbers.
pub struct PlanePos {
    pub x: real,
    pub y: real,
}

impl PlanePos {
    /// The point with the two components swapped.
    pub open spec fn swapped(self) -> PlanePos {
        PlanePos { x: self.y, y: self.x }
    }
}

/// A per-axis scale and translation, as four real numbers.
pub struct Affine {
    pub scale_x: real,
    pub scale_y: real,
    pub offset_x: real,
    pub offset_y: real,
}

impl Affine {
    /// The image of `p`: each component times the scale plus the offset.
    pub open spec fn apply(self, p: PlanePos) -> PlanePos {
        PlanePos { x: p.x * self.scale_x + self.offset_x, y: p.y * self.scale_y + self.offset_y }
    }

    /// The transform with the roles of the two axes swapped.
    pub open spec fn transposed(self) -> Affine {
        Affine {
            scale_x: self.scale_y,
            scale_y: self.scale_x,
            offset_x: self.offset_y,
            offset_y: self.offset_x,
        }
    }

    /// Neither scale is zero.
    pub open spec fn invertible(self) -> bool {
        self.scale_x != 0real && self.scale_y != 0real
    }

    /// The transform that undoes this one.
    pub open spec fn inverted(self) -> Affine {
        Affine {
            scale_x: 1real / self.scale_x,
            scale_y: 1real / self.scale_y,
            offset_x: -self.offset_x / self.scale_x,
            offset_y: -self.offset_y / self.scale_y,
        }
    }

    /// The length `d` scaled by the magnitude of the x scale; the sign of
    /// `d` is kept.
    pub open spec fn stretch(self, d: real) -> real {
        d * real_abs(self.scale_x)
    }
}

/// Whether one of the two rectangles has no width or no height.
pub open spec fn degenerate(s1: PlanePos, s2: PlanePos, d1: PlanePos, d2: PlanePos) -> bool {
    s1.x == s2.x || s1.y == s2.y || d1.x == d2.x || d1.y == d2.y
}

/// Whether the source rectangle is taller, for its width, than the
/// destination: then the padding goes left and right.
pub open spec fn taller(s1: PlanePos, s2: PlanePos, d1: PlanePos, d2: PlanePos) -> bool {
    real_abs(s1.y - s2.y) * real_abs(d1.x - d2.x) > real_abs(d1.y - d2.y) * real_abs(s1.x - s2.x)
}

/// The fit with padding left and right: the y extent is mapped exactly, the
/// x scale has the same magnitude and the sign that keeps a mirrored axis
/// mirrored, and the x midpoints are matched.
pub open spec fn horizontal_padded(s1: PlanePos, s2: PlanePos, d1: PlanePos, d2: PlanePos) -> Affine {
    let scale_y = (d1.y - d2.y) / (s1.y - s2.y);
    let scale_x = if (s2.x - s1.x) * (d2.x - d1.x) < 0real {
        -real_abs(scale_y)
    } else {
        real_abs(scale_y)
    };
    Affine {
        scale_x,
        scale_y,
        offset_x: (d1.x + d2.x) / 2real - (s1.x + s2.x) / 2real * scale_x,
        offset_y: d1.y - s1.y * scale_y,
    }
}

/// The fit of the source rectangle into the destination rectangle that
/// keeps the aspect ratio: padded left and right where the source is
/// taller, else padded above and below.
pub open spec fn letterboxed(s1: PlanePos, s2: PlanePos, d1: PlanePos, d2: PlanePos) -> Affine {
    if taller(s1, s2, d1, d2) {
        horizontal_padded(s1, s2, d1, d2)
    } else {
        horizontal_padded(s1.swapped(), s2.swapped(), d1.swapped(), d2.swapped()).transposed()
    }
}

/// A point of the plane with exact rational components.
#[derive(Clone, Copy, Debug, PartialEq, Eq, Structural, Hash)]
pub struct Point {
    pub x: Fraction,
    pub y: Fraction,
}

impl View for Point {
    type V = PlanePos;

    open spec fn view(&self) -> PlanePos {
        PlanePos { x: self.x.value(), y: self.y.value() }
    }
}

impl Point {
    /// Both components are well-formed.
    pub open spec fn wf(self) -> bool {
        self.x.wf() && self.y.wf()
    }

    /// The point with the two components swapped.
    pub open spec fn spec_swapped(self) -> Point {
        Point { x: self.y, y: self.x }
    }

    /// The point `(x, y)`.
    pub fn new(x: Fraction, y: Fraction) -> (p: Point)
        ensures
            p == (Point { x, y }),
    {
        Point { x, y }
    }

    /// The point `(x, y)` with whole components.
    pub fn from_ints(x: i64, y: i64) -> (p: Point)
        ensures
            p == (Point { x: Fraction { num: x as i128, den: 1 }, y: Fraction { num: y as i128, den: 1 } }),
            p.wf(),
            p@ == (PlanePos { x: x as real, y: y as real }),
    {
        Point { x: Fraction::from_int(x), y: Fraction::from_int(y) }
    }

    /// The point with the two components swapped.
    pub fn swapped(&self) -> (p: Point)
        ensures
            p == self.spec_swapped(),
            p@ == self@.swapped(),
    {
        Point { x: self.y, y: self.x }
    }
}

/// Why a transform could not be made.
#[derive(Clone, Copy, Debug, PartialEq, Eq, Structural, Hash)]
pub enum TransformError {
    /// One of the two rectangles has no width or no height.
    Degenerate,
    /// A number left the range of the exact arithmetic.
    Overflow,
}

/// A 2D transform consisting of per-axis scale and translation.
#[derive(Clone, Copy, Debug, PartialEq, Eq, Structural, Hash)]
pub struct Transform {
    pub scale_x: Fraction,
    pub scale_y: Fraction,
    pub offset_x: Fraction,
    pub offset_y: Fraction,
}

impl View for Transform {
    type V = Affine;

    open spec fn view(&self) -> Affine {
        Affine {
            scale_x: self.scale_x.value(),
            scale_y: self.scale_y.value(),
            offset_x: self.offset_x.value(),
            offset_y: self.offset_y.value(),
        }
    }
}

/// Whether exactly one of the two x extents runs backwards, so that the x
/// axis is mirrored. Missing where an extent is out of range.
pub open spec fn spec_mirrored(s1: Point, s2: Point, d1: Point, d2: Point) -> Option<bool> {
    match (s2.x.spec_minus(s1.x), d2.x.spec_minus(d1.x)) {
        (Some(a), Some(b)) => Some((a.num < 0 && b.num > 0) || (a.num > 0 && b.num < 0)),
        _ => None,
    }
}

/// The whole number 2.
pub open spec fn two() -> Fraction {
    Fraction { num: 2, den: 1 }
}

impl Transform {
    /// All four numbers are well-formed.
    pub open spec fn wf(self) -> bool {
        self.scale_x.wf() && self.scale_y.wf() && self.offset_x.wf() && self.offset_y.wf()
    }

    /// Neither scale is zero.
    pub open spec fn invertible(self) -> bool {
        self.scale_x.num != 0 && self.scale_y.num != 0
    }

    /// The transform with the roles of the two axes swapped.
    pub open spec fn spec_transpose(self) -> Transform {
        Transform {
            scale_x: self.scale_y,
            scale_y: self.scale_x,
            offset_x: self.offset_y,
            offset_y: self.offset_x,
        }
    }

    /// The numbers that `inverse` yields: the reciprocal of each scale and
    /// minus each offset over its scale.
    pub open spec fn spec_inverse(self) -> Option<Transform> {
        let one = Fraction { num: 1, den: 1 };
        match (
            one.spec_over(self.scale_x),
            one.spec_over(self.scale_y),
            self.offset_x.spec_negated().spec_over(self.scale_x),
            self.offset_y.spec_negated().spec_over(self.scale_y),
        ) {
            (Some(scale_x), Some(scale_y), Some(offset_x), Some(offset_y)) => Some(
                Transform { scale_x, scale_y, offset_x, offset_y },
            ),
            _ => None,
        }
    }

    /// The numbers that `map_point` yields: each component times the scale,
    /// plus the offset.
    pub open spec fn spec_map_point(self, p: Point) -> Option<Point> {
        match (
            spec_sum_of(p.x.spec_times(self.scale_x), Some(self.offset_x)),
            spec_sum_of(p.y.spec_times(self.scale_y), Some(self.offset_y)),
        ) {
            (Some(x), Some(y)) => Some(Point { x, y }),
            _ => None,
        }
    }

    /// The numbers that `new_horizontal_padded` yields.
    pub open spec fn spec_horizontal_padded(s1: Point, s2: Point, d1: Point, d2: Point) -> Option<
        Transform,
    > {
        let scale_y = spec_quotient_of(d1.y.spec_minus(d2.y), s1.y.spec_minus(s2.y));
        let offset_y = spec_difference_of(Some(d1.y), spec_product_of(Some(s1.y), scale_y));
        let scale_x = match (scale_y, spec_mirrored(s1, s2, d1, d2)) {
            (Some(s), Some(mirrored)) => Some(
                if mirrored {
                    s.spec_magnitude().spec_negated()
                } else {
                    s.spec_magnitude()
                },
            ),
            _ => None,
        };
        let src_x_middle = spec_quotient_of(s1.x.spec_plus(s2.x), Some(two()));
        let dst_x_middle = spec_quotient_of(d1.x.spec_plus(d2.x), Some(two()));
        let offset_x = spec_difference_of(dst_x_middle, spec_product_of(src_x_middle, scale_x));
        match (scale_x, scale_y, offset_x, offset_y) {
            (Some(scale_x), Some(scale_y), Some(offset_x), Some(offset_y)) => Some(
                Transform { scale_x, scale_y, offset_x, offset_y },
            ),
            _ => None,
        }
    }

    /// Whether the source is taller, for its width, than the destination,
    /// from the four extents. Missing where a product is out of range.
    pub open spec fn spec_taller(sw: Fraction, sh: Fraction, dw: Fraction, dh: Fraction) -> Option<
        bool,
    > {
        match (
            sh.spec_magnitude().spec_times(dw.spec_magnitude()),
            dh.spec_magnitude().spec_times(sw.spec_magnitude()),
        ) {
            (Some(left), Some(right)) => left.spec_exceeds(right),
            _ => None,
        }
    }

    /// What `new_letterboxed` yields: `Overflow` where an extent, a product
    /// or the fit itself leaves the range, `Degenerate` where an extent is
    /// zero, else the fit, padded on the axis that has slack.
    pub open spec fn spec_new_letterboxed(s1: Point, s2: Point, d1: Point, d2: Point) -> Result<
        Transform,
        TransformError,
    > {
        match (
            s1.x.spec_minus(s2.x),
            s1.y.spec_minus(s2.y),
            d1.x.spec_minus(d2.x),
            d1.y.spec_minus(d2.y),
        ) {
            (Some(sw), Some(sh), Some(dw), Some(dh)) => if sw.num == 0 || sh.num == 0 || dw.num
                == 0 || dh.num == 0 {
                Err(TransformError::Degenerate)
            } else {
                match Transform::spec_taller(sw, sh, dw, dh) {
                    Some(true) => match Transform::spec_horizontal_padded(s1, s2, d1, d2) {
                        Some(t) => Ok(t),
                        None => Err(TransformError::Overflow),
                    },
                    Some(false) => match Transform::spec_horizontal_padded(
                        s1.spec_swapped(),
                        s2.spec_swapped(),
                        d1.spec_swapped(),
                        d2.spec_swapped(),
                    ) {
                        Some(t) => Ok(t.spec_transpose()),
                        None => Err(TransformError::Overflow),
                    },
                    None => Err(TransformError::Overflow),
                }
            },
            _ => Err(TransformError::Overflow),
        }
    }

    /// Creates a new `Transform` that maps the rect `(src_p1, src_p2)` inside
    /// `(dst_p1, dst_p2)`, adding padding/letterboxing so that the src rect
    /// fits inside the dst rect while preserving its aspect ratio.
    ///
    /// A rectangle without width or height is refused, so the transform that
    /// comes back can always be inverted.
    pub fn new_letterboxed(src_p1: Point, src_p2: Point, dst_p1: Point, dst_p2: Point) -> (made:
        Result<Transform, TransformError>)
        requires
            src_p1.wf(),
            src_p2.wf(),
            dst_p1.wf(),
            dst_p2.wf(),
        ensures
            made == Transform::spec_new_letterboxed(src_p1, src_p2, dst_p1, dst_p2),
            made matches Ok(t) ==> {
                &&& t.wf()
                &&& t.invertible()
                &&& !degenerate(src_p1@, src_p2@, dst_p1@, dst_p2@)
                &&& t@ == letterboxed(src_p1@, src_p2@, dst_p1@, dst_p2@)
            },
            made == Err::<Transform, TransformError>(TransformError::Degenerate) ==> degenerate(
                src_p1@,
                src_p2@,
                dst_p1@,
                dst_p2@,
            ),
            whole(src_p1) && whole(src_p2) && whole(dst_p1) && whole(dst_p2) ==> (made.is_ok()
                <==> !degenerate(src_p1@, src_p2@, dst_p1@, dst_p2@)) && made != Err::<
                Transform,
                TransformError,
            >(TransformError::Overflow),
    {
        proof {
            if whole(src_p1) && whole(src_p2) && whole(dst_p1) && whole(dst_p2) {
                lemma_whole_degenerate(src_p1, src_p2, dst_p1, dst_p2);
                if !degenerate(src_p1@, src_p2@, dst_p1@, dst_p2@) {
                    lemma_letterboxed_whole(src_p1, src_p2, dst_p1, dst_p2);
                }
            }
        }
        let (sw, sh, dw, dh) = match (
            src_p1.x.minus(src_p2.x),
            src_p1.y.minus(src_p2.y),
            dst_p1.x.minus(dst_p2.x),
            dst_p1.y.minus(dst_p2.y),
        ) {
            (Some(sw), Some(sh), Some(dw), Some(dh)) => (sw, sh, dw, dh),
            _ => { return Err(TransformError::Overflow); },
        };
        if sw.is_zero() || sh.is_zero() || dw.is_zero() || dh.is_zero() {
            return Err(TransformError::Degenerate);
        }
        let left = sh.magnitude().times(dw.magnitude());
        let right = dh.magnitude().times(sw.magnitude());
        let is_taller = match (left, right) {
            (Some(l), Some(r)) => l.exceeds(r),
            _ => None,
        };
        match is_taller {
            Some(true) => {
                // The src rectangle's aspect ratio is "taller" than the dst rectangle's; add
                // horizontal padding.
                match Transform::new_horizontal_padded(src_p1, src_p2, dst_p1, dst_p2) {
                    Some(t) => {
                        proof {
                            lemma_fit_invertible(src_p1@, src_p2@, dst_p1@, dst_p2@);
                            lemma_ratio_sign(t.scale_x.num as int, t.scale_x.den as int);
                            lemma_ratio_sign(t.scale_y.num as int, t.scale_y.den as int);
                        }
                        Ok(t)
                    },
                    None => Err(TransformError::Overflow),
                }
            },
            Some(false) => {
                // The src rectangle's aspect ratio is "wider" than the dst rectangle's; add
                // vertical padding.
                match Transform::new_horizontal_padded(
                    src_p1.swapped(),
                    src_p2.swapped(),
                    dst_p1.swapped(),
                    dst_p2.swapped(),
                ) {
                    Some(t) => {
                        proof {
                            lemma_fit_invertible(
                                src_p1@.swapped(),
                                src_p2@.swapped(),
                                dst_p1@.swapped(),
                                dst_p2@.swapped(),
                            );
                            lemma_ratio_sign(t.scale_x.num as int, t.scale_x.den as int);
                            lemma_ratio_sign(t.scale_y.num as int, t.scale_y.den as int);
                        }
                        Ok(t.transpose())
                    },
                    None => Err(TransformError::Overflow),
                }
            },
            None => Err(TransformError::Overflow),
        }
    }

    /// Creates a new `Transform` that maps the rect `(src_p1, src_p2)` inside
    /// `(dst_p1, dst_p2)`, adding horizontal padding/letterboxing. Nothing
    /// comes back where the source has no height or a number leaves the
    /// range.
    pub fn new_horizontal_padded(src_p1: Point, src_p2: Point, dst_p1: Point, dst_p2: Point) -> (made:
        Option<Transform>)
        requires
            src_p1.wf(),
            src_p2.wf(),
            dst_p1.wf(),
            dst_p2.wf(),
        ensures
            made == Transform::spec_horizontal_padded(src_p1, src_p2, dst_p1, dst_p2),
            made matches Some(t) ==> {
                &&& t.wf()
                &&& src_p1@.y != src_p2@.y
                &&& t@ == horizontal_padded(src_p1@, src_p2@, dst_p1@, dst_p2@)
            },
    {
        let src_height = src_p1.y.minus(src_p2.y);
        let scale_y = quotient_of(dst_p1.y.minus(dst_p2.y), src_height);
        let offset_y = difference_of(Some(dst_p1.y), product_of(Some(src_p1.y), scale_y));
        let mirrored = match (src_p2.x.minus(src_p1.x), dst_p2.x.minus(dst_p1.x)) {
            (Some(a), Some(b)) => {
                proof {
                    lemma_product_sign(a.value(), b.value());
                    lemma_ratio_sign(a.num as int, a.den as int);
                    lemma_ratio_sign(b.num as int, b.den as int);
                }
                Some((a.num < 0 && b.num > 0) || (a.num > 0 && b.num < 0))
            },
            _ => None,
        };
        let scale_x = match (scale_y, mirrored) {
            (Some(s), Some(m)) => Some(
                if m {
                    s.magnitude().negated()
                } else {
                    s.magnitude()
                },
            ),
            _ => None,
        };
        let two = Fraction::from_int(2);
        let src_x_middle = quotient_of(src_p1.x.plus(src_p2.x), Some(two));
        let dst_x_middle = quotient_of(dst_p1.x.plus(dst_p2.x), Some(two));
        let offset_x = difference_of(dst_x_middle, product_of(src_x_middle, scale_x));
        match (scale_x, scale_y, offset_x, offset_y) {
            (Some(scale_x), Some(scale_y), Some(offset_x), Some(offset_y)) => Some(
                Transform { scale_x, scale_y, offset_x, offset_y },
            ),
            _ => None,
        }
    }

    /// Swaps the X and Y components of this `Transform`.
    pub fn transpose(&self) -> (t: Transform)
        ensures
            t == self.spec_transpose(),
            t@ == self@.transposed(),
            t.wf() == self.wf(),
            t.invertible() == self.invertible(),
    {
        Transform {
            scale_x: self.scale_y,
            scale_y: self.scale_x,
            offset_x: self.offset_y,
            offset_y: self.offset_x,
        }
    }

    /// Returns the inverse `Transform`, or nothing where a number leaves the
    /// range. A transform with a zero scale has no inverse.
    pub fn inverse(&self) -> (inv: Option<Transform>)
        requires
            self.wf(),
            self.invertible(),
        ensures
            inv == self.spec_inverse(),
            inv matches Some(t) ==> {
                &&& t.wf()
                &&& t.invertible()
                &&& self@.invertible()
                &&& t@ == self@.inverted()
            },
    {
        let one = Fraction::from_int(1);
        match (
            one.over(self.scale_x),
            one.over(self.scale_y),
            self.offset_x.negated().over(self.scale_x),
            self.offset_y.negated().over(self.scale_y),
        ) {
            (Some(scale_x), Some(scale_y), Some(offset_x), Some(offset_y)) => {
                proof {
                    lemma_reciprocal_nonzero(self.scale_x.value());
                    lemma_reciprocal_nonzero(self.scale_y.value());
                    lemma_ratio_sign(scale_x.num as int, scale_x.den as int);
                    lemma_ratio_sign(scale_y.num as int, scale_y.den as int);
                }
                Some(Transform { scale_x, scale_y, offset_x, offset_y })
            },
            _ => None,
        }
    }

    /// Applies the transformation to a point. Nothing comes back where a
    /// number leaves the range.
    pub fn map_point(&self, p: Point) -> (image: Option<Point>)
        requires
            self.wf(),
            p.wf(),
        ensures
            image == self.spec_map_point(p),
            image matches Some(q) ==> q.wf() && q@ == self@.apply(p@),
    {
        match (
            sum_of(p.x.times(self.scale_x), Some(self.offset_x)),
            sum_of(p.y.times(self.scale_y), Some(self.offset_y)),
        ) {
            (Some(x), Some(y)) => Some(Point { x, y }),
            _ => None,
        }
    }

    /// Scales a length by the magnitude of the x scale, keeping its sign.
    /// Nothing comes back where a number leaves the range.
    pub fn map_dist(&self, x: Fraction) -> (scaled: Option<Fraction>)
        requires
            self.wf(),
            x.wf(),
        ensures
            scaled == x.spec_times(self.scale_x.spec_magnitude()),
            scaled matches Some(d) ==> d.wf() && d.value() == self@.stretch(x.value()),
    {
        x.times(self.scale_x.magnitude())
    }
}

/// A product of two real numbers is negative exactly when one factor is
/// negative and the other positive.
pub proof fn lemma_product_sign(a: real, b: real)
    ensures
        (a * b < 0real) == ((a < 0real && b > 0real) || (a > 0real && b < 0real)),
{
    assert((a * b < 0real) == ((a < 0real && b > 0real) || (a > 0real && b < 0real)))
        by (nonlinear_arith);
}

/// The reciprocal of a number other than zero is not zero.
pub proof fn lemma_reciprocal_nonzero(s: real)
    requires
        s != 0real,
    ensures
        1real / s != 0real,
{
    assert(1real / s != 0real) by (nonlinear_arith)
        requires
            s != 0real,
    ;
}

/// The fit of a rectangle with a height into one with a height has no zero
/// scale.
pub proof fn lemma_fit_invertible(s1: PlanePos, s2: PlanePos, d1: PlanePos, d2: PlanePos)
    requires
        s1.y != s2.y,
        d1.y != d2.y,
    ensures
        horizontal_padded(s1, s2, d1, d2).invertible(),
        horizontal_padded(s1, s2, d1, d2).transposed().invertible(),
{
    let n = d1.y - d2.y;
    let d = s1.y - s2.y;
    assert(n / d != 0real) by (nonlinear_arith)
        requires
            n != 0real,
            d != 0real,
    ;
}

/// Transposing twice gives the transform back, number by number.
pub proof fn lemma_transpose_involution(t: Transform)
    ensures
        t.spec_transpose().spec_transpose() == t,
        t@.transposed().transposed() == t@,
        t.spec_transpose()@ == t@.transposed(),
{
}

/// The inverse undoes the transform, and the transform undoes the inverse,
/// at every point.
pub proof fn lemma_inverse_round_trip(t: Affine, p: PlanePos)
    requires
        t.invertible(),
    ensures
        t.inverted().invertible(),
        t.inverted().apply(t.apply(p)) == p,
        t.apply(t.inverted().apply(p)) == p,
        t.inverted().inverted() == t,
{
    lemma_axis_round_trip(t.scale_x, t.offset_x, p.x);
    lemma_axis_round_trip(t.scale_y, t.offset_y, p.y);
}

/// One axis of `lemma_inverse_round_trip`.
pub proof fn lemma_axis_round_trip(s: real, o: real, v: real)
    requires
        s != 0real,
    ensures
        1real / s != 0real,
        (v * s + o) * (1real / s) + (-o / s) == v,
        (v * (1real / s) + (-o / s)) * s + o == v,
        1real / (1real / s) == s,
        -(-o / s) / (1real / s) == o,
{
    assert(1real / s != 0real && (v * s + o) * (1real / s) + (-o / s) == v && (v * (1real / s) + (
    -o / s)) * s + o == v && 1real / (1real / s) == s && -(-o / s) / (1real / s) == o)
        by (nonlinear_arith)
        requires
            s != 0real,
    ;
}

/// The midpoint of two points.
pub open spec fn midpoint(a: PlanePos, b: PlanePos) -> PlanePos {
    PlanePos { x: (a.x + b.x) / 2real, y: (a.y + b.y) / 2real }
}

/// What the fit with padding left and right does: the source is mapped
/// onto the full height of the destination, corner to corner; both axes are
/// scaled by the same magnitude; and the image is centered on the
/// destination across.
pub proof fn lemma_horizontal_padded_fits(s1: PlanePos, s2: PlanePos, d1: PlanePos, d2: PlanePos)
    requires
        s1.y != s2.y,
    ensures
        ({
            let t = horizontal_padded(s1, s2, d1, d2);
            &&& t.apply(s1).y == d1.y
            &&& t.apply(s2).y == d2.y
            &&& real_abs(t.scale_x) == real_abs(t.scale_y)
            &&& (t.apply(s1).x + t.apply(s2).x) / 2real == (d1.x + d2.x) / 2real
            &&& t.apply(midpoint(s1, s2)) == midpoint(d1, d2)
        }),
{
    let t = horizontal_padded(s1, s2, d1, d2);
    let n = d1.y - d2.y;
    let d = s1.y - s2.y;
    let k = n / d;
    assert(t.scale_y == k);
    assert(s1.y * k - s2.y * k == n) by (nonlinear_arith)
        requires
            k == n / d,
            d == s1.y - s2.y,
            d != 0real,
    ;
    let sx = t.scale_x;
    let ms = (s1.x + s2.x) / 2real;
    assert(s1.x * sx + s2.x * sx == 2real * (ms * sx)) by (nonlinear_arith)
        requires
            ms == (s1.x + s2.x) / 2real,
    ;
    assert(ms * sx + t.offset_x == (d1.x + d2.x) / 2real);
    let my = (s1.y + s2.y) / 2real;
    assert(s1.y * k + s2.y * k == 2real * (my * k)) by (nonlinear_arith)
        requires
            my == (s1.y + s2.y) / 2real,
    ;
}

/// With padding left and right, the image of the source is no wider than
/// the destination, provided the source is at least as tall for its width.
pub proof fn lemma_horizontal_padded_inside(s1: PlanePos, s2: PlanePos, d1: PlanePos, d2: PlanePos)
    requires
        s1.y != s2.y,
        real_abs(s1.y - s2.y) * real_abs(d1.x - d2.x) >= real_abs(d1.y - d2.y) * real_abs(
            s1.x - s2.x,
        ),
    ensures
        ({
            let t = horizontal_padded(s1, s2, d1, d2);
            real_abs(t.apply(s1).x - t.apply(s2).x) <= real_abs(d1.x - d2.x)
        }),
{
    let t = horizontal_padded(s1, s2, d1, d2);
    let sh = real_abs(s1.y - s2.y);
    let dh = real_abs(d1.y - d2.y);
    let sw = real_abs(s1.x - s2.x);
    let dw = real_abs(d1.x - d2.x);
    let k = real_abs(t.scale_y);
    let n = d1.y - d2.y;
    let d = s1.y - s2.y;
    assert(k * sh == dh) by (nonlinear_arith)
        requires
            k == real_abs(n / d),
            sh == real_abs(d),
            dh == real_abs(n),
            d != 0real,
    ;
    assert(k * sw <= dw) by (nonlinear_arith)
        requires
            k * sh == dh,
            sh * dw >= dh * sw,
            sh > 0real,
            k >= 0real,
            sw >= 0real,
            dw >= 0real,
    ;
    let sx = t.scale_x;
    let w = s1.x - s2.x;
    assert(real_abs(s1.x * sx - s2.x * sx) == k * sw) by (nonlinear_arith)
        requires
            real_abs(sx) == k,
            sw == real_abs(w),
            w == s1.x - s2.x,
    ;
}

/// What letterboxing does, for two rectangles with width and height: it can
/// be inverted; both axes are scaled by the same magnitude; the center of
/// the source goes to the center of the destination; on the axis without
/// padding the source is mapped corner to corner; and on the padded axis
/// its image is centered and stays inside the destination.
pub proof fn lemma_letterboxed_fits(s1: PlanePos, s2: PlanePos, d1: PlanePos, d2: PlanePos)
    requires
        !degenerate(s1, s2, d1, d2),
    ensures
        ({
            let t = letterboxed(s1, s2, d1, d2);
            &&& t.invertible()
            &&& real_abs(t.scale_x) == real_abs(t.scale_y)
            &&& t.apply(midpoint(s1, s2)) == midpoint(d1, d2)
            &&& taller(s1, s2, d1, d2) ==> {
                &&& t.apply(s1).y == d1.y
                &&& t.apply(s2).y == d2.y
                &&& (t.apply(s1).x + t.apply(s2).x) / 2real == (d1.x + d2.x) / 2real
                &&& real_abs(t.apply(s1).x - t.apply(s2).x) <= real_abs(d1.x - d2.x)
            }
            &&& !taller(s1, s2, d1, d2) ==> {
                &&& t.apply(s1).x == d1.x
                &&& t.apply(s2).x == d2.x
                &&& (t.apply(s1).y + t.apply(s2).y) / 2real == (d1.y + d2.y) / 2real
                &&& real_abs(t.apply(s1).y - t.apply(s2).y) <= real_abs(d1.y - d2.y)
            }
        }),
{
    if taller(s1, s2, d1, d2) {
        lemma_fit_invertible(s1, s2, d1, d2);
        lemma_horizontal_padded_fits(s1, s2, d1, d2);
        lemma_horizontal_padded_inside(s1, s2, d1, d2);
    } else {
        let (a1, a2, b1, b2) = (s1.swapped(), s2.swapped(), d1.swapped(), d2.swapped());
        let (sw, sh) = (real_abs(s1.x - s2.x), real_abs(s1.y - s2.y));
        let (dw, dh) = (real_abs(d1.x - d2.x), real_abs(d1.y - d2.y));
        assert(sw * dh >= dw * sh) by (nonlinear_arith)
            requires
                !(sh * dw > dh * sw),
        ;
        lemma_fit_invertible(a1, a2, b1, b2);
        lemma_horizontal_padded_fits(a1, a2, b1, b2);
        lemma_horizontal_padded_inside(a1, a2, b1, b2);
    }
}

/// The largest magnitude of whole coordinates for which letterboxing is sure
/// to stay in range: 2 to the power of 60.
pub const WHOLE_LIMIT: i128 = 0x1000_0000_0000_0000;

/// Both components are whole numbers of magnitude at most `WHOLE_LIMIT`.
pub open spec fn whole(p: Point) -> bool {
    bounded(p.x, WHOLE_LIMIT as int, 1) && bounded(p.y, WHOLE_LIMIT as int, 1)
}

/// For whole corners within `WHOLE_LIMIT`, the fit with padding left and
/// right is made whenever the source has a height.
pub proof fn lemma_horizontal_padded_whole(s1: Point, s2: Point, d1: Point, d2: Point)
    requires
        whole(s1),
        whole(s2),
        whole(d1),
        whole(d2),
        s1.y.num != s2.y.num,
    ensures
        Transform::spec_horizontal_padded(s1, s2, d1, d2).is_some(),
{
    let b = 0x1000_0000_0000_0000int;
    lemma_plus_minus_bounded(s1.y, s2.y, b, 1, b, 1);
    lemma_plus_minus_bounded(d1.y, d2.y, b, 1, b, 1);
    let hs = s1.y.spec_minus(s2.y).unwrap();
    let hd = d1.y.spec_minus(d2.y).unwrap();
    assert(hs.num == s1.y.num - s2.y.num) by (nonlinear_arith)
        requires
            hs.num == s1.y.num * s2.y.den - s2.y.num * s1.y.den,
            s1.y.den == 1,
            s2.y.den == 1,
    ;
    lemma_over_bounded(hd, hs, 2 * b, 1, 2 * b, 1);
    let scale_y = hd.spec_over(hs).unwrap();
    lemma_times_bounded(s1.y, scale_y, b, 1, 2 * b, 2 * b);
    let along = s1.y.spec_times(scale_y).unwrap();
    lemma_plus_minus_bounded(d1.y, along, b, 1, 2 * b * b, 2 * b);
    lemma_plus_minus_bounded(s2.x, s1.x, b, 1, b, 1);
    lemma_plus_minus_bounded(d2.x, d1.x, b, 1, b, 1);
    let mirrored = spec_mirrored(s1, s2, d1, d2).unwrap();
    let scale_x = if mirrored {
        scale_y.spec_magnitude().spec_negated()
    } else {
        scale_y.spec_magnitude()
    };
    assert(bounded(scale_x, 2 * b, 2 * b));
    lemma_plus_minus_bounded(s1.x, s2.x, b, 1, b, 1);
    lemma_plus_minus_bounded(d1.x, d2.x, b, 1, b, 1);
    let src_sum = s1.x.spec_plus(s2.x).unwrap();
    let dst_sum = d1.x.spec_plus(d2.x).unwrap();
    lemma_over_bounded(src_sum, two(), 2 * b, 1, 2, 1);
    lemma_over_bounded(dst_sum, two(), 2 * b, 1, 2, 1);
    let src_x_middle = src_sum.spec_over(two()).unwrap();
    let dst_x_middle = dst_sum.spec_over(two()).unwrap();
    lemma_times_bounded(src_x_middle, scale_x, 2 * b, 2, 2 * b, 2 * b);
    let across = src_x_middle.spec_times(scale_x).unwrap();
    lemma_plus_minus_bounded(dst_x_middle, across, 2 * b, 2, 4 * b * b, 4 * b);
}

/// For whole corners within `WHOLE_LIMIT`, letterboxing succeeds whenever
/// both rectangles have a width and a height.
pub proof fn lemma_letterboxed_whole(s1: Point, s2: Point, d1: Point, d2: Point)
    requires
        whole(s1),
        whole(s2),
        whole(d1),
        whole(d2),
        s1.x.num != s2.x.num,
        s1.y.num != s2.y.num,
        d1.x.num != d2.x.num,
        d1.y.num != d2.y.num,
    ensures
        Transform::spec_new_letterboxed(s1, s2, d1, d2).is_ok(),
{
    let b = 0x1000_0000_0000_0000int;
    lemma_plus_minus_bounded(s1.x, s2.x, b, 1, b, 1);
    lemma_plus_minus_bounded(s1.y, s2.y, b, 1, b, 1);
    lemma_plus_minus_bounded(d1.x, d2.x, b, 1, b, 1);
    lemma_plus_minus_bounded(d1.y, d2.y, b, 1, b, 1);
    let sw = s1.x.spec_minus(s2.x).unwrap();
    let sh = s1.y.spec_minus(s2.y).unwrap();
    let dw = d1.x.spec_minus(d2.x).unwrap();
    let dh = d1.y.spec_minus(d2.y).unwrap();
    lemma_whole_difference(s1.x, s2.x);
    lemma_whole_difference(s1.y, s2.y);
    lemma_whole_difference(d1.x, d2.x);
    lemma_whole_difference(d1.y, d2.y);
    lemma_times_bounded(sh.spec_magnitude(), dw.spec_magnitude(), 2 * b, 1, 2 * b, 1);
    lemma_times_bounded(dh.spec_magnitude(), sw.spec_magnitude(), 2 * b, 1, 2 * b, 1);
    let left = sh.spec_magnitude().spec_times(dw.spec_magnitude()).unwrap();
    let right = dh.spec_magnitude().spec_times(sw.spec_magnitude()).unwrap();
    assert(left.num * right.den == left.num && right.num * left.den == right.num)
        by (nonlinear_arith)
        requires
            left.den == 1,
            right.den == 1,
    ;
    assert(Transform::spec_taller(sw, sh, dw, dh).is_some());
    lemma_horizontal_padded_whole(s1, s2, d1, d2);
    lemma_horizontal_padded_whole(
        s1.spec_swapped(),
        s2.spec_swapped(),
        d1.spec_swapped(),
        d2.spec_swapped(),
    );
}

/// The difference of two whole numbers, as `spec_minus` yields it, has the
/// difference of the numerators on top.
pub proof fn lemma_whole_difference(a: Fraction, b: Fraction)
    requires
        a.den == 1,
        b.den == 1,
    ensures
        a.num * b.den - b.num * a.den == a.num - b.num,
        a.den * b.den == 1,
{
    assert(a.num * b.den - b.num * a.den == a.num - b.num && a.den * b.den == 1)
        by (nonlinear_arith)
        requires
            a.den == 1,
            b.den == 1,
    ;
}

/// For whole corners within `WHOLE_LIMIT`, a rectangle has no width or no
/// height exactly when two of its coordinates are the same number, and then
/// `new_letterboxed` says so.
pub proof fn lemma_whole_degenerate(s1: Point, s2: Point, d1: Point, d2: Point)
    requires
        whole(s1),
        whole(s2),
        whole(d1),
        whole(d2),
    ensures
        degenerate(s1@, s2@, d1@, d2@) <==> (s1.x.num == s2.x.num || s1.y.num == s2.y.num
            || d1.x.num == d2.x.num || d1.y.num == d2.y.num),
        degenerate(s1@, s2@, d1@, d2@) ==> Transform::spec_new_letterboxed(s1, s2, d1, d2) == Err::<
            Transform,
            TransformError,
        >(TransformError::Degenerate),
{
    let b = 0x1000_0000_0000_0000int;
    lemma_whole_value(s1.x, s2.x);
    lemma_whole_value(s1.y, s2.y);
    lemma_whole_value(d1.x, d2.x);
    lemma_whole_value(d1.y, d2.y);
    lemma_plus_minus_bounded(s1.x, s2.x, b, 1, b, 1);
    lemma_plus_minus_bounded(s1.y, s2.y, b, 1, b, 1);
    lemma_plus_minus_bounded(d1.x, d2.x, b, 1, b, 1);
    lemma_plus_minus_bounded(d1.y, d2.y, b, 1, b, 1);
    lemma_whole_difference(s1.x, s2.x);
    lemma_whole_difference(s1.y, s2.y);
    lemma_whole_difference(d1.x, d2.x);
    lemma_whole_difference(d1.y, d2.y);
}

/// Two whole numbers are the same number exactly when their numerators are
/// equal.
pub proof fn lemma_whole_value(a: Fraction, b: Fraction)
    requires
        a.den == 1,
        b.den == 1,
    ensures
        (a.value() == b.value()) == (a.num == b.num),
{
    let (x, y) = (a.num as real, b.num as real);
    assert(x / 1real == x && y / 1real == y) by (nonlinear_arith);
}

} // verus!
