use vstd::prelude::*;

verus! {

/// Declares the terminal colour type of `colored`, which points carry as an
/// opaque display attribute.
#[verifier::external_type_specification]
#[verifier::external_body]
pub struct ExColor(colored::Color);

/// An exact rational number `num / den`; well formed when `den > 0`.
#[derive(Clone, Copy, Debug, PartialEq, Eq, Structural)]
pub struct Coord {
    pub num: i64,
    pub den: i64,
}

/// `n1 / d1 == n2 / d2`, for nonzero denominators.
pub open spec fn value_eq(n1: int, d1: int, n2: int, d2: int) -> bool {
    n1 * d2 == n2 * d1
}

/// `n1 / d1 < n2 / d2`, for positive denominators.
pub open spec fn value_lt(n1: int, d1: int, n2: int, d2: int) -> bool {
    n1 * d2 < n2 * d1
}

impl Coord {
    pub open spec fn wf(self) -> bool {
        self.den > 0
    }

    /// The two coordinates denote the same number.
    pub open spec fn same(self, other: Coord) -> bool {
        value_eq(self.num as int, self.den as int, other.num as int, other.den as int)
    }

    pub fn new(num: i64, den: i64) -> (r: Coord)
        requires
            den > 0,
        ensures
            r == (Coord { num, den }),
            r.wf(),
    {
        Coord { num, den }
    }

    pub fn from_int(v: i64) -> (r: Coord)
        ensures
            r == (Coord { num: v, den: 1 }),
            r.wf(),
    {
        Coord { num: v, den: 1 }
    }

    /// Whether `self` and `other` denote the same number.
    pub fn same_value(&self, other: &Coord) -> (r: bool)
        ensures
            r == self.same(*other),
    {
        let n1 = self.num as i128;
        let n2 = other.num as i128;
        let d1 = self.den as i128;
        let d2 = other.den as i128;
        assert(-0x4000_0000_0000_0000_0000_0000_0000_0000 <= n1 * d2 <= 0x4000_0000_0000_0000_0000_0000_0000_0000) by (nonlinear_arith)
            requires -0x8000_0000_0000_0000 <= n1 <= 0x8000_0000_0000_0000, -0x8000_0000_0000_0000 <= d2 <= 0x8000_0000_0000_0000;
        assert(-0x4000_0000_0000_0000_0000_0000_0000_0000 <= n2 * d1 <= 0x4000_0000_0000_0000_0000_0000_0000_0000) by (nonlinear_arith)
            requires -0x8000_0000_0000_0000 <= n2 <= 0x8000_0000_0000_0000, -0x8000_0000_0000_0000 <= d1 <= 0x8000_0000_0000_0000;
        let a: i128 = n1 * d2;
        let b: i128 = n2 * d1;
        a == b
    }
}

pub open spec fn abs(v: int) -> int {
    if v < 0 {
        -v
    } else {
        v
    }
}

/// An axis-aligned rectangle with origin `(x, y)` and signed extents `(w, h)`.
/// A negative extent inverts the direction of its axis.
#[derive(Clone, Copy, Debug, PartialEq, Eq, Structural)]
pub struct Rect {
    pub x: i32,
    pub y: i32,
    pub w: i32,
    pub h: i32,
}

/// Numerator of `((c - f0) / fw) * tw + t0` over the denominator `c.den * fw`.
pub open spec fn map_num(c: Coord, f0: int, fw: int, t0: int, tw: int) -> int {
    (c.num - f0 * c.den) * tw + t0 * c.den * fw
}

/// Numerator of the mapped coordinate once its denominator is made positive.
pub open spec fn scaled_num(c: Coord, f0: int, fw: int, t0: int, tw: int) -> int {
    if fw > 0 {
        map_num(c, f0, fw, t0, tw)
    } else {
        -map_num(c, f0, fw, t0, tw)
    }
}

/// Positive denominator of the mapped coordinate: `c.den * |fw|`.
pub open spec fn scaled_den(c: Coord, fw: int) -> int {
    c.den * abs(fw)
}

/// The mapped coordinate and its denominator fit in `i64`.
pub open spec fn scaled_fits(c: Coord, f0: int, fw: int, t0: int, tw: int) -> bool {
    i64::MIN <= scaled_num(c, f0, fw, t0, tw) <= i64::MAX && scaled_den(c, fw) <= i64::MAX
}

/// Integer cell index of the mapped coordinate: the absolute value of
/// `((c - f0) / fw) * tw + t0`, truncated toward zero.
pub open spec fn cell_index(c: Coord, f0: int, fw: int, t0: int, tw: int) -> int {
    abs(map_num(c, f0, fw, t0, tw)) / abs(c.den * fw)
}

/// A position with optional display colour, label and marker glyph.
#[derive(Clone, Debug)]
pub struct Point {
    pub x: Coord,
    pub y: Coord,
    pub color: Option<colored::Color>,
    pub name: Option<String>,
    pub point: Option<String>,
}

pub open spec fn opt_text(o: Option<String>) -> Option<Seq<char>> {
    match o {
        Some(s) => Some(s@),
        None => None,
    }
}

impl Point {
    pub open spec fn wf(self) -> bool {
        self.x.wf() && self.y.wf()
    }

    /// Both coordinates of the point carried from `from` into `to` fit in `i64`.
    pub open spec fn transform_fits(self, from: Rect, to: Rect) -> bool {
        &&& scaled_fits(self.x, from.x as int, from.w as int, to.x as int, to.w as int)
        &&& scaled_fits(self.y, from.y as int, from.h as int, to.y as int, to.h as int)
    }

    /// Carries the point from the space `from` into the space `to`, axis by
    /// axis: `x' = ((x - from.x) / from.w) * to.w + to.x`, and likewise for `y`
    /// with `h`. Colour, label and glyph are kept.
    pub fn transform(&self, from: &Rect, to: &Rect) -> (r: Point)
        requires
            self.wf(),
            from.w != 0,
            from.h != 0,
            self.transform_fits(*from, *to),
        ensures
            r.wf(),
            r.x.num == scaled_num(self.x, from.x as int, from.w as int, to.x as int, to.w as int),
            r.x.den == scaled_den(self.x, from.w as int),
            r.y.num == scaled_num(self.y, from.y as int, from.h as int, to.y as int, to.h as int),
            r.y.den == scaled_den(self.y, from.h as int),
            r.color == self.color,
            opt_text(r.name) == opt_text(self.name),
            opt_text(r.point) == opt_text(self.point),
    {
        let x = scale_axis(&self.x, from.x, from.w, to.x, to.w);
        let y = scale_axis(&self.y, from.y, from.h, to.y, to.h);
        let name = match &self.name {
            Some(s) => Some(s.clone()),
            None => None,
        };
        let point = match &self.point {
            Some(s) => Some(s.clone()),
            None => None,
        };
        Point { x, y, color: self.color, name, point }
    }
}

/// Carrying a point from a space into that same space leaves the value of
/// each of its coordinates unchanged.
pub proof fn lemma_transform_identity(p: Point, r: Rect)
    requires
        p.wf(),
        r.w != 0,
        r.h != 0,
    ensures
        value_eq(
            scaled_num(p.x, r.x as int, r.w as int, r.x as int, r.w as int),
            scaled_den(p.x, r.w as int),
            p.x.num as int,
            p.x.den as int,
        ),
        value_eq(
            scaled_num(p.y, r.y as int, r.h as int, r.y as int, r.h as int),
            scaled_den(p.y, r.h as int),
            p.y.num as int,
            p.y.den as int,
        ),
{
    lemma_axis_identity(p.x, r.x as int, r.w as int);
    lemma_axis_identity(p.y, r.y as int, r.h as int);
}

proof fn lemma_axis_identity(c: Coord, o: int, e: int)
    requires
        c.wf(),
        e != 0,
    ensures
        value_eq(scaled_num(c, o, e, o, e), scaled_den(c, e), c.num as int, c.den as int),
{
    let n = c.num as int;
    let d = c.den as int;
    assert(map_num(c, o, e, o, e) == n * e) by (nonlinear_arith)
        requires map_num(c, o, e, o, e) == (n - o * d) * e + o * d * e;
    if e > 0 {
        assert((n * e) * d == n * (d * e)) by (nonlinear_arith);
    } else {
        assert((-(n * e)) * d == n * (d * (-e))) by (nonlinear_arith);
    }
}

/// Where the source extent of an axis is positive and the destination extent
/// is negative, a larger source coordinate maps to a smaller destination one.
pub proof fn lemma_axis_inversion(p1: Point, p2: Point, from: Rect, to: Rect)
    requires
        p1.wf(),
        p2.wf(),
        from.h > 0,
        to.h < 0,
        value_lt(p1.y.num as int, p1.y.den as int, p2.y.num as int, p2.y.den as int),
    ensures
        value_lt(
            scaled_num(p2.y, from.y as int, from.h as int, to.y as int, to.h as int),
            scaled_den(p2.y, from.h as int),
            scaled_num(p1.y, from.y as int, from.h as int, to.y as int, to.h as int),
            scaled_den(p1.y, from.h as int),
        ),
{
    let (n1, d1) = (p1.y.num as int, p1.y.den as int);
    let (n2, d2) = (p2.y.num as int, p2.y.den as int);
    let (f0, fw, t0, tw) = (from.y as int, from.h as int, to.y as int, to.h as int);
    let a1 = map_num(p1.y, f0, fw, t0, tw);
    let a2 = map_num(p2.y, f0, fw, t0, tw);
    let (b1, b2) = ((n1 - f0 * d1) * tw, (n2 - f0 * d2) * tw);
    let (c1, c2) = (t0 * d1 * fw, t0 * d2 * fw);
    assert(a1 * (d2 * fw) == b1 * (d2 * fw) + c1 * (d2 * fw)) by (nonlinear_arith)
        requires a1 == b1 + c1;
    assert(a2 * (d1 * fw) == b2 * (d1 * fw) + c2 * (d1 * fw)) by (nonlinear_arith)
        requires a2 == b2 + c2;
    assert(c1 * (d2 * fw) == c2 * (d1 * fw)) by (nonlinear_arith)
        requires c1 == t0 * d1 * fw, c2 == t0 * d2 * fw;
    lemma_expand_scaled(n1, d1, d2, f0, fw, tw);
    lemma_expand_scaled(n2, d2, d1, f0, fw, tw);
    assert(f0 * d2 * d1 == f0 * d1 * d2) by (nonlinear_arith);
    assert(fw * tw * (n1 * d2) - fw * tw * (n2 * d1) == fw * tw * (n1 * d2 - n2 * d1)) by (nonlinear_arith);
    assert(fw * tw * (n1 * d2 - n2 * d1) > 0) by (nonlinear_arith)
        requires fw > 0, tw < 0, n1 * d2 < n2 * d1;
}

proof fn lemma_expand_scaled(n: int, d: int, e: int, f0: int, fw: int, tw: int)
    ensures
        ((n - f0 * d) * tw) * (e * fw) == fw * tw * (n * e) - fw * tw * (f0 * d * e),
{
    assert(((n - f0 * d) * tw) * (e * fw) == fw * tw * (n * e) - fw * tw * (f0 * d * e))
        by (nonlinear_arith);
}

proof fn lemma_map_num_bounds(c: Coord, f0: int, fw: int, t0: int, tw: int)
    requires
        i64::MIN <= c.num <= i64::MAX,
        0 < c.den <= i64::MAX,
        i32::MIN <= f0 <= i32::MAX,
        i32::MIN <= fw <= i32::MAX,
        i32::MIN <= t0 <= i32::MAX,
        i32::MIN <= tw <= i32::MAX,
    ensures
        -(0x8000_0000_0000_0000 * 0x8000_0000) <= f0 * c.den <= 0x8000_0000_0000_0000 * 0x8000_0000,
        -(0x8000_0000_0000_0000 * 0x8000_0000) <= c.den * fw <= 0x8000_0000_0000_0000 * 0x8000_0000,
        -(0x8000_0000_0000_0000 * (1 + 0x8000_0000) * 0x8000_0000) <= (c.num - f0 * c.den) * tw
            <= 0x8000_0000_0000_0000 * (1 + 0x8000_0000) * 0x8000_0000,
        -(0x8000_0000_0000_0000 * 0x8000_0000 * 0x8000_0000) <= t0 * (c.den * fw)
            <= 0x8000_0000_0000_0000 * 0x8000_0000 * 0x8000_0000,
        t0 * (c.den * fw) == t0 * c.den * fw,
        i128::MIN <= map_num(c, f0, fw, t0, tw) <= i128::MAX,
        -i128::MAX <= map_num(c, f0, fw, t0, tw),
{
    let n = c.num as int;
    let d = c.den as int;
    let p: int = 0x8000_0000_0000_0000;
    let q: int = 0x8000_0000;
    assert(-(p * q) <= f0 * d <= p * q) by (nonlinear_arith)
        requires -q <= f0 <= q, 0 < d <= p;
    assert(-(p * q) <= d * fw <= p * q) by (nonlinear_arith)
        requires -q <= fw <= q, 0 < d <= p;
    let a = n - f0 * d;
    assert(-(p * (1 + q)) <= a <= p * (1 + q)) by (nonlinear_arith)
        requires -p <= n <= p, -(p * q) <= f0 * d <= p * q, a == n - f0 * d, p >= 1, q >= 1;
    assert(-(p * (1 + q) * q) <= a * tw <= p * (1 + q) * q) by (nonlinear_arith)
        requires -(p * (1 + q)) <= a <= p * (1 + q), -q <= tw <= q, p > 0, q > 0;
    let e = d * fw;
    assert(-(p * q * q) <= t0 * e <= p * q * q) by (nonlinear_arith)
        requires -q <= t0 <= q, -(p * q) <= e <= p * q, p > 0, q > 0;
    assert(t0 * (d * fw) == t0 * d * fw) by (nonlinear_arith);
}

/// Maps one coordinate with positive denominator through an axis of the two
/// spaces, keeping the result's denominator positive.
fn scale_axis(c: &Coord, f0: i32, fw: i32, t0: i32, tw: i32) -> (r: Coord)
    requires
        c.wf(),
        fw != 0,
        scaled_fits(*c, f0 as int, fw as int, t0 as int, tw as int),
    ensures
        r.wf(),
        r.num == scaled_num(*c, f0 as int, fw as int, t0 as int, tw as int),
        r.den == scaled_den(*c, fw as int),
{
    proof {
        lemma_map_num_bounds(*c, f0 as int, fw as int, t0 as int, tw as int);
    }
    let (num, den) = map_axis(c, f0, fw, t0, tw);
    assert(den != 0) by (nonlinear_arith)
        requires den == c.den * fw, c.den > 0, fw != 0;
    if den > 0 {
        assert(fw > 0) by (nonlinear_arith)
            requires den == c.den * fw, c.den > 0, den > 0;
        Coord { num: num as i64, den: den as i64 }
    } else {
        assert(fw < 0) by (nonlinear_arith)
            requires den == c.den * fw, c.den > 0, den < 0;
        assert(-den == c.den * abs(fw as int)) by (nonlinear_arith)
            requires den == c.den * fw, fw < 0;
        Coord { num: (-num) as i64, den: (-den) as i64 }
    }
}

/// The mapped coordinate as an unnormalised fraction, in `i128`.
fn map_axis(c: &Coord, f0: i32, fw: i32, t0: i32, tw: i32) -> (r: (i128, i128))
    requires
        c.wf(),
    ensures
        r.0 == map_num(*c, f0 as int, fw as int, t0 as int, tw as int),
        r.1 == c.den * fw,
{
    proof {
        lemma_map_num_bounds(*c, f0 as int, fw as int, t0 as int, tw as int);
    }
    let n = c.num as i128;
    let d = c.den as i128;
    let a: i128 = n - f0 as i128 * d;
    let dfw: i128 = d * fw as i128;
    let num: i128 = a * tw as i128 + t0 as i128 * dfw;
    (num, dfw)
}

/// The cell index that a coordinate maps to along one axis: the absolute value
/// of the mapped coordinate, truncated toward zero.
pub fn cell_of(c: &Coord, f0: i32, fw: i32, t0: i32, tw: i32) -> (r: u128)
    requires
        c.wf(),
        fw != 0,
    ensures
        r == cell_index(*c, f0 as int, fw as int, t0 as int, tw as int),
{
    proof {
        lemma_map_num_bounds(*c, f0 as int, fw as int, t0 as int, tw as int);
    }
    let (num, den) = map_axis(c, f0, fw, t0, tw);
    assert(den != 0) by (nonlinear_arith)
        requires den == c.den * fw, c.den > 0, fw != 0;
    let an: u128 = if num < 0 { (-num) as u128 } else { num as u128 };
    let ad: u128 = if den < 0 { (-den) as u128 } else { den as u128 };
    an / ad
}

} // verus!
