use vstd::prelude::*;

verus! {

/// A complex number as a pair of integers: real part, imaginary part.
pub type Cx = (int, int);

pub open spec fn c_zero() -> Cx {
    (0, 0)
}

pub open spec fn c_one() -> Cx {
    (1, 0)
}

pub open spec fn c_add(a: Cx, b: Cx) -> Cx {
    (a.0 + b.0, a.1 + b.1)
}

pub open spec fn c_sub(a: Cx, b: Cx) -> Cx {
    (a.0 - b.0, a.1 - b.1)
}

pub open spec fn c_mul(a: Cx, b: Cx) -> Cx {
    (a.0 * b.0 - a.1 * b.1, a.0 * b.1 + a.1 * b.0)
}

/// The squared Euclidean distance between two points of the complex plane.
pub open spec fn c_dist_sq(a: Cx, b: Cx) -> int {
    (a.0 - b.0) * (a.0 - b.0) + (a.1 - b.1) * (a.1 - b.1)
}

pub open spec fn in_i64(x: int) -> bool {
    i64::MIN <= x <= i64::MAX
}

/// Both parts of `a + b` fit in `i64`.
pub open spec fn add_fits(a: Cx, b: Cx) -> bool {
    in_i64(a.0 + b.0) && in_i64(a.1 + b.1)
}

/// Both parts of `a - b` fit in `i64`.
pub open spec fn sub_fits(a: Cx, b: Cx) -> bool {
    in_i64(a.0 - b.0) && in_i64(a.1 - b.1)
}

/// The four partial products of `a * b`, and the two parts they combine into,
/// fit in `i64`.
pub open spec fn mul_fits(a: Cx, b: Cx) -> bool {
    &&& in_i64(a.0 * b.0)
    &&& in_i64(a.1 * b.1)
    &&& in_i64(a.0 * b.1)
    &&& in_i64(a.1 * b.0)
    &&& in_i64(a.0 * b.0 - a.1 * b.1)
    &&& in_i64(a.0 * b.1 + a.1 * b.0)
}

/// A complex number with integer real and imaginary parts.
#[derive(Clone, Copy, Debug, PartialEq, Eq, Structural)]
pub struct Gaussian {
    pub re: i64,
    pub im: i64,
}

/// The values of a sequence of Gaussian integers.
pub open spec fn cview(v: Seq<Gaussian>) -> Seq<Cx> {
    v.map_values(|g: Gaussian| g@)
}

impl Gaussian {
    pub open spec fn view(&self) -> Cx {
        (self.re as int, self.im as int)
    }

    pub fn new(re: i64, im: i64) -> (r: Gaussian)
        ensures
            r.re == re,
            r.im == im,
    {
        Gaussian { re, im }
    }

    pub fn zero() -> (r: Gaussian)
        ensures
            r@ == c_zero(),
    {
        Gaussian { re: 0, im: 0 }
    }

    pub fn one() -> (r: Gaussian)
        ensures
            r@ == c_one(),
    {
        Gaussian { re: 1, im: 0 }
    }

    /// `self + o`, or `None` where a part leaves `i64`.
    pub fn checked_add(self, o: Gaussian) -> (r: Option<Gaussian>)
        ensures
            r.is_some() == add_fits(self@, o@),
            r.is_some() ==> r.unwrap()@ == c_add(self@, o@),
    {
        let re = self.re.checked_add(o.re);
        let im = self.im.checked_add(o.im);
        match (re, im) {
            (Some(re), Some(im)) => Some(Gaussian { re, im }),
            _ => None,
        }
    }

    /// `self - o`, or `None` where a part leaves `i64`.
    pub fn checked_sub(self, o: Gaussian) -> (r: Option<Gaussian>)
        ensures
            r.is_some() == sub_fits(self@, o@),
            r.is_some() ==> r.unwrap()@ == c_sub(self@, o@),
    {
        let re = self.re.checked_sub(o.re);
        let im = self.im.checked_sub(o.im);
        match (re, im) {
            (Some(re), Some(im)) => Some(Gaussian { re, im }),
            _ => None,
        }
    }

    /// `self * o`, or `None` where a partial product or a part leaves `i64`.
    pub fn checked_mul(self, o: Gaussian) -> (r: Option<Gaussian>)
        ensures
            r.is_some() == mul_fits(self@, o@),
            r.is_some() ==> r.unwrap()@ == c_mul(self@, o@),
    {
        let rr = self.re.checked_mul(o.re);
        let ii = self.im.checked_mul(o.im);
        let ri = self.re.checked_mul(o.im);
        let ir = self.im.checked_mul(o.re);
        match (rr, ii, ri, ir) {
            (Some(rr), Some(ii), Some(ri), Some(ir)) => {
                let re = rr.checked_sub(ii);
                let im = ri.checked_add(ir);
                match (re, im) {
                    (Some(re), Some(im)) => Some(Gaussian { re, im }),
                    _ => None,
                }
            },
            _ => None,
        }
    }
}

pub proof fn lemma_mul_distributes_add(r: Cx, a: Cx, b: Cx)
    ensures
        c_mul(r, c_add(a, b)) == c_add(c_mul(r, a), c_mul(r, b)),
{
    assert(r.0 * (a.0 + b.0) == r.0 * a.0 + r.0 * b.0) by (nonlinear_arith);
    assert(r.1 * (a.1 + b.1) == r.1 * a.1 + r.1 * b.1) by (nonlinear_arith);
    assert(r.0 * (a.1 + b.1) == r.0 * a.1 + r.0 * b.1) by (nonlinear_arith);
    assert(r.1 * (a.0 + b.0) == r.1 * a.0 + r.1 * b.0) by (nonlinear_arith);
}

pub proof fn lemma_mul_sub_distributes(a: Cx, b: Cx, e: Cx)
    ensures
        c_mul(c_sub(a, b), e) == c_sub(c_mul(a, e), c_mul(b, e)),
{
    assert((a.0 - b.0) * e.0 == a.0 * e.0 - b.0 * e.0) by (nonlinear_arith);
    assert((a.1 - b.1) * e.1 == a.1 * e.1 - b.1 * e.1) by (nonlinear_arith);
    assert((a.0 - b.0) * e.1 == a.0 * e.1 - b.0 * e.1) by (nonlinear_arith);
    assert((a.1 - b.1) * e.0 == a.1 * e.0 - b.1 * e.0) by (nonlinear_arith);
}

proof fn lemma_swap3(x: int, y: int, w: int)
    ensures
        x * (y * w) == y * (x * w),
{
    assert(x * (y * w) == y * (x * w)) by (nonlinear_arith);
}

proof fn lemma_dist3(x: int, y: int, w: int)
    ensures
        x * (y - w) == x * y - x * w,
        x * (y + w) == x * y + x * w,
{
    assert(x * (y - w) == x * y - x * w) by (nonlinear_arith);
    assert(x * (y + w) == x * y + x * w) by (nonlinear_arith);
}

pub proof fn lemma_mul_swap(z: Cx, r: Cx, e: Cx)
    ensures
        c_mul(z, c_mul(r, e)) == c_mul(r, c_mul(z, e)),
{
    let (z0, z1) = z;
    let (r0, r1) = r;
    let (e0, e1) = e;
    lemma_dist3(z0, r0 * e0, r1 * e1);
    lemma_dist3(z1, r0 * e1, r1 * e0);
    lemma_dist3(r0, z0 * e0, z1 * e1);
    lemma_dist3(r1, z0 * e1, z1 * e0);
    lemma_dist3(z0, r0 * e1, r1 * e0);
    lemma_dist3(z1, r0 * e0, r1 * e1);
    lemma_dist3(r0, z0 * e1, z1 * e0);
    lemma_dist3(r1, z0 * e0, z1 * e1);
    lemma_swap3(z0, r0, e0);
    lemma_swap3(z0, r1, e1);
    lemma_swap3(z1, r0, e1);
    lemma_swap3(z1, r1, e0);
    lemma_swap3(z0, r0, e1);
    lemma_swap3(z0, r1, e0);
    lemma_swap3(z1, r0, e0);
    lemma_swap3(z1, r1, e1);
}

pub proof fn lemma_mul_zero(a: Cx)
    ensures
        c_mul(c_zero(), a) == c_zero(),
        c_mul(a, c_zero()) == c_zero(),
{
}

} // verus!
