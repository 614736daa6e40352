//! A rank-polymorphic array: an ordered shape of dimension sizes together
//! with a flat, row-major buffer whose length always equals the product of
//! the shape. The empty shape has product one, so a rank-0 array is a
//! scalar holding exactly one element.

use vstd::prelude::*;

verus! {

/// Product of a shape's dimension sizes; the empty shape is a scalar and
/// has product one.
pub open spec fn shape_product(s: Seq<usize>) -> int
    decreases s.len(),
{
    if s.len() == 0 {
        1
    } else {
        s[0] * shape_product(s.drop_first())
    }
}

/// Splitting off the leading dimension splits the product.
pub proof fn lemma_product_first(s: Seq<usize>)
    requires
        s.len() > 0,
    ensures
        shape_product(s) == s[0] * shape_product(s.drop_first()),
{
}

/// A shape's product is never negative.
pub proof fn lemma_product_nonneg(s: Seq<usize>)
    ensures
        shape_product(s) >= 0,
    decreases s.len(),
{
    if s.len() > 0 {
        lemma_product_nonneg(s.drop_first());
        vstd::arithmetic::mul::lemma_mul_nonnegative(
            s[0] as int,
            shape_product(s.drop_first()),
        );
    }
}

/// A multidimensional array of elements of one kind: a shape and a flat
/// row-major buffer of exactly the shape's product many elements.
#[verifier::ext_equal]
pub struct Array<T> {
    pub shape: Vec<usize>,
    pub data: Vec<T>,
}

impl<T> Array<T> {
    /// The shape invariant: flat length equals the product of the shape.
    pub open spec fn wf(&self) -> bool {
        shape_product(self.shape@) == self.data@.len()
    }

    pub open spec fn spec_shape(&self) -> Seq<usize> {
        self.shape@
    }

    pub open spec fn spec_data(&self) -> Seq<T> {
        self.data@
    }

    /// Number of leading-axis rows: the leading dimension, or one for a
    /// scalar.
    pub open spec fn spec_row_count(&self) -> int {
        if self.shape@.len() == 0 {
            1
        } else {
            self.shape@[0] as int
        }
    }

    /// Flat length of one leading-axis row.
    pub open spec fn spec_row_len(&self) -> int {
        if self.shape@.len() == 0 {
            1
        } else {
            shape_product(self.shape@.drop_first())
        }
    }

    /// A scalar array: empty shape, a single element.
    pub fn scalar(x: T) -> (r: Array<T>)
        ensures
            r.wf(),
            r.spec_shape() == Seq::<usize>::empty(),
            r.spec_data() == seq![x],
    {
        let mut data = Vec::new();
        data.push(x);
        Array { shape: Vec::new(), data }
    }

    /// A rank-1 array holding the given elements in order.
    pub fn list(data: Vec<T>) -> (r: Array<T>)
        ensures
            r.wf(),
            r.spec_shape() == seq![data@.len() as usize],
            r.spec_data() == data@,
    {
        let n = data.len();
        let mut shape = Vec::new();
        shape.push(n);
        proof {
            assert(shape@ =~= seq![data@.len() as usize]);
            assert(shape@.drop_first() =~= Seq::<usize>::empty());
            assert(shape_product(shape@) == shape@[0] * shape_product(shape@.drop_first()));
        }
        Array { shape, data }
    }

    /// An array of the given shape and flat data, if the lengths agree;
    /// `None` exactly when the flat length differs from the shape's
    /// product.
    pub fn new(shape: Vec<usize>, data: Vec<T>) -> (r: Option<Array<T>>)
        ensures
            match r {
                Some(a) => a.wf() && a.spec_shape() == shape@ && a.spec_data() == data@
                    && shape_product(shape@) == data@.len(),
                None => shape_product(shape@) != data@.len(),
            },
    {
        let dl = data.len();
        match checked_product(&shape) {
            Some(p) => {
                if p == dl {
                    Some(Array { shape, data })
                } else {
                    None
                }
            },
            None => {
                proof {
                    lemma_product_nonneg(shape@);
                }
                None
            },
        }
    }

    /// Rank: the number of dimensions.
    pub fn rank(&self) -> (r: usize)
        ensures
            r == self.spec_shape().len(),
    {
        self.shape.len()
    }

    /// The shape.
    pub fn shape(&self) -> (r: &Vec<usize>)
        ensures
            r@ == self.spec_shape(),
    {
        &self.shape
    }

    /// The flat element count.
    pub fn flat_len(&self) -> (r: usize)
        ensures
            r == self.spec_data().len(),
    {
        self.data.len()
    }

    /// The flat buffer.
    pub fn data(&self) -> (r: &Vec<T>)
        ensures
            r@ == self.spec_data(),
    {
        &self.data
    }

    /// Number of leading-axis rows.
    pub fn row_count(&self) -> (r: usize)
        ensures
            r == self.spec_row_count(),
    {
        if self.shape.len() == 0 {
            1
        } else {
            self.shape[0]
        }
    }

    /// Flat length of one leading-axis row. The length is required to be
    /// representable; it always is unless the leading dimension is zero
    /// while the trailing ones overflow a `usize`.
    pub fn row_len(&self) -> (r: usize)
        requires
            self.wf(),
            self.spec_row_len() <= usize::MAX,
        ensures
            r == self.spec_row_len(),
    {
        if self.shape.len() == 0 {
            1
        } else {
            match checked_product_from(&self.shape, 1) {
                Some(q) => {
                    proof {
                        assert(self.shape@.subrange(1, self.shape@.len() as int)
                            =~= self.shape@.drop_first());
                    }
                    q
                },
                None => {
                    proof {
                        assert(self.shape@.subrange(1, self.shape@.len() as int)
                            =~= self.shape@.drop_first());
                    }
                    0
                },
            }
        }
    }

    /// A positive row count bounds the row length by the flat length, so
    /// it always fits.
    pub proof fn lemma_row_len_fits(&self)
        requires
            self.wf(),
            self.spec_row_count() > 0,
        ensures
            self.spec_row_len() <= self.spec_data().len(),
            self.spec_row_count() * self.spec_row_len() == self.spec_data().len(),
    {
        if self.shape@.len() == 0 {
        } else {
            lemma_product_nonneg(self.shape@.drop_first());
            vstd::arithmetic::mul::lemma_mul_inequality(
                1,
                self.shape@[0] as int,
                shape_product(self.shape@.drop_first()),
            );
        }
    }

}

/// The product of the dimensions from position `from` on, when it fits in
/// a `usize`.
pub(crate) fn checked_product_from(shape: &Vec<usize>, from: usize) -> (r: Option<usize>)
    requires
        from <= shape@.len(),
    ensures
        match r {
            Some(p) => p == shape_product(shape@.subrange(from as int, shape@.len() as int)),
            None => shape_product(shape@.subrange(from as int, shape@.len() as int)) > usize::MAX,
        },
{
    let n = shape.len();
    proof {
        assert(shape@.subrange(n as int, n as int) =~= Seq::<usize>::empty());
    }
    let mut i: usize = n;
    let mut p: usize = 1;
    let mut over: bool = false;
    while i > from
        invariant
            from <= i <= n,
            n == shape@.len(),
            !over ==> p == shape_product(shape@.subrange(i as int, n as int)),
            over ==> shape_product(shape@.subrange(i as int, n as int)) > usize::MAX,
        decreases i,
    {
        i = i - 1;
        let d = shape[i];
        proof {
            assert(shape@.subrange(i as int, n as int).drop_first() =~= shape@.subrange(
                i + 1,
                n as int,
            ));
            lemma_product_nonneg(shape@.subrange(i + 1, n as int));
            assert(shape_product(shape@.subrange(i as int, n as int)) == d as int * shape_product(
                shape@.subrange(i + 1, n as int),
            ));
        }
        if d == 0 {
            p = 0;
            over = false;
        } else if over {
            proof {
                vstd::arithmetic::mul::lemma_mul_inequality(
                    1,
                    d as int,
                    shape_product(shape@.subrange(i + 1, n as int)),
                );
            }
        } else {
            match d.checked_mul(p) {
                Some(q) => {
                    p = q;
                },
                None => {
                    over = true;
                },
            }
        }
    }
    if over {
        None
    } else {
        Some(p)
    }
}

/// The product of a shape's dimensions, when it fits in a `usize`.
pub fn checked_product(shape: &Vec<usize>) -> (r: Option<usize>)
    ensures
        match r {
            Some(p) => p == shape_product(shape@),
            None => shape_product(shape@) > usize::MAX,
        },
{
    let r = checked_product_from(shape, 0);
    proof {
        assert(shape@.subrange(0, shape@.len() as int) =~= shape@);
    }
    r
}

/// An exact element-by-element copy of a vector.
pub fn dup_vec<T: Copy>(v: &Vec<T>) -> (r: Vec<T>)
    ensures
        r@ == v@,
{
    let mut r: Vec<T> = Vec::new();
    let n = v.len();
    let mut i: usize = 0;
    while i < n
        invariant
            i <= n,
            n == v@.len(),
            r@ == v@.subrange(0, i as int),
        decreases n - i,
    {
        r.push(v[i]);
        proof {
            assert(r@ =~= v@.subrange(0, i + 1));
        }
        i = i + 1;
    }
    proof {
        assert(v@.subrange(0, n as int) =~= v@);
    }
    r
}

/// The shape a leading-axis row has: the trailing shape, or the empty
/// shape again for a scalar.
pub open spec fn row_shape(s: Seq<usize>) -> Seq<usize> {
    if s.len() == 0 {
        s
    } else {
        s.drop_first()
    }
}

impl<T: Copy> Array<T> {
    /// An exact copy of the array: same shape, same elements.
    pub fn dup(&self) -> (r: Array<T>)
        ensures
            r.spec_shape() == self.spec_shape(),
            r.spec_data() == self.spec_data(),
    {
        Array { shape: dup_vec(&self.shape), data: dup_vec(&self.data) }
    }

    /// The `i`-th leading-axis row: the trailing shape over the `i`-th
    /// stretch of `spec_row_len` flat elements. For a scalar, row 0 is
    /// the scalar itself.
    pub fn row(&self, i: usize) -> (r: Array<T>)
        requires
            self.wf(),
            i < self.spec_row_count(),
        ensures
            r.wf(),
            r.spec_shape() == row_shape(self.spec_shape()),
            r.spec_data() == self.spec_data().subrange(
                i * self.spec_row_len(),
                (i + 1) * self.spec_row_len(),
            ),
    {
        let n = self.data.len();
        proof {
            self.lemma_row_len_fits();
        }
        let rl = self.row_len();
        let shape: Vec<usize> = if self.shape.len() == 0 {
            Vec::new()
        } else {
            let mut sh = dup_vec(&self.shape);
            sh.remove(0);
            sh
        };
        proof {
            assert(shape@ =~= row_shape(self.shape@));
            vstd::arithmetic::mul::lemma_mul_inequality(
                i + 1,
                self.spec_row_count(),
                self.spec_row_len(),
            );
            vstd::arithmetic::mul::lemma_mul_is_distributive_add_other_way(
                self.spec_row_len(),
                i as int,
                1,
            );
            vstd::arithmetic::mul::lemma_mul_nonnegative(i as int, self.spec_row_len());
            vstd::arithmetic::mul::lemma_mul_inequality(
                i as int,
                i + 1,
                self.spec_row_len(),
            );
        }
        let start: usize = i * rl;
        let mut data: Vec<T> = Vec::new();
        let mut j: usize = 0;
        while j < rl
            invariant
                j <= rl,
                start == i * self.spec_row_len(),
                rl == self.spec_row_len(),
                self.wf(),
                n == self.spec_data().len(),
                start + rl <= n,
                data@ == self.spec_data().subrange(start as int, start + j),
            decreases rl - j,
        {
            data.push(self.data[start + j]);
            proof {
                assert(data@ =~= self.spec_data().subrange(start as int, start + j + 1));
            }
            j = j + 1;
        }
        let r = Array { shape, data };
        proof {
            if self.shape@.len() == 0 {
                assert(shape_product(r.shape@) == 1);
            } else {
                assert(r.shape@ == self.shape@.drop_first());
            }
        }
        r
    }
}

} // verus!
