//! Incremental row-by-row construction of a value. The first row
//! establishes the accumulator under a leading axis of one; every later
//! row is appended along the leading axis, with byte rows and number
//! rows reconciled by promotion and lower-ranked rows broadcast to the
//! trailing shape by the same shape-prefix rule as binary pervasive
//! dispatch. Finishing yields the accumulated value, or an empty byte
//! array if no row was ever added.

use crate::array::{shape_product, Array};
use crate::errors::{fail2, EvalError};
use crate::pervade::{bidx, bstep, lemma_bidx_in_range, prefix_ok, promote, Env};
use crate::value::{ValV, Value};
use vstd::prelude::*;

verus! {

/// The shape a first row takes: a leading axis of one.
pub open spec fn lead1(row: ValV) -> ValV {
    row.with_shape(seq![1usize] + row.shape())
}

/// Whether a row can be appended to the accumulator: the accumulator has
/// a leading axis with room, the row's shape broadcasts to the
/// accumulator's trailing shape by the same shape-prefix rule as binary
/// pervasive dispatch, and the kinds agree up to byte-to-number
/// promotion.
pub open spec fn rows_compat(acc: ValV, row: ValV) -> bool {
    &&& acc.shape().len() >= 1
    &&& acc.shape()[0] < usize::MAX
    &&& row.shape().len() <= acc.shape().len() - 1
    &&& prefix_ok(row.shape(), acc.shape().drop_first())
    &&& shape_product(acc.shape().drop_first()) <= usize::MAX
    &&& match (acc, row) {
        (ValV::Num { .. }, ValV::Num { .. }) => true,
        (ValV::Num { .. }, ValV::Byte { .. }) => true,
        (ValV::Byte { .. }, ValV::Num { .. }) => true,
        (ValV::Byte { .. }, ValV::Byte { .. }) => true,
        (ValV::Char { .. }, ValV::Char { .. }) => true,
        (ValV::Func { .. }, ValV::Func { .. }) => true,
        _ => false,
    }
}

/// The row's elements spread over the trailing shape: position `j` of
/// the broadcast row reads the row element the dispatch's pairing rule
/// assigns it.
pub open spec fn bcast_row<T>(e: Seq<T>, rs: Seq<usize>, tr: Seq<usize>) -> Seq<T> {
    Seq::new(shape_product(tr) as nat, |j: int| e[bidx(rs, tr, j)])
}

/// The accumulator after appending a row: one more leading row, the
/// row's elements broadcast to the trailing shape and concatenated
/// behind, in number storage if either side was numbers.
pub open spec fn appended(acc: ValV, row: ValV) -> ValV {
    let shape2 = seq![((acc.shape()[0] + 1) as usize)] + acc.shape().drop_first();
    let tr = acc.shape().drop_first();
    let rs = row.shape();
    match (acc, row) {
        (ValV::Num { elems: ea, .. }, ValV::Num { elems: eb, .. }) => ValV::Num {
            shape: shape2,
            elems: ea + bcast_row(eb, rs, tr),
        },
        (ValV::Num { elems: ea, .. }, ValV::Byte { elems: eb, .. }) => ValV::Num {
            shape: shape2,
            elems: ea + promote(bcast_row(eb, rs, tr)),
        },
        (ValV::Byte { elems: ea, .. }, ValV::Num { elems: eb, .. }) => ValV::Num {
            shape: shape2,
            elems: promote(ea) + bcast_row(eb, rs, tr),
        },
        (ValV::Byte { elems: ea, .. }, ValV::Byte { elems: eb, .. }) => ValV::Byte {
            shape: shape2,
            elems: ea + bcast_row(eb, rs, tr),
        },
        (ValV::Char { elems: ea, .. }, ValV::Char { elems: eb, .. }) => ValV::Char {
            shape: shape2,
            elems: ea + bcast_row(eb, rs, tr),
        },
        (ValV::Func { elems: ea, .. }, ValV::Func { elems: eb, .. }) => ValV::Func {
            shape: shape2,
            elems: ea + bcast_row(eb, rs, tr),
        },
        _ => acc,
    }
}

/// Incremental row accumulator.
pub struct ValueBuilder {
    pub value: Option<Value>,
    pub rows: usize,
    pub capacity: usize,
}

impl ValueBuilder {
    /// The accumulator is well-formed and the row counter tracks its
    /// leading axis.
    pub open spec fn inv(&self) -> bool {
        match self.value {
            Some(v) => v@.wf() && v@.shape().len() >= 1 && self.rows == v@.shape()[0],
            None => self.rows == 0,
        }
    }

    pub fn new() -> (r: ValueBuilder)
        ensures
            r.value is None,
            r.capacity == 0,
            r.inv(),
    {
        ValueBuilder { value: None, rows: 0, capacity: 0 }
    }

    pub fn with_capacity(capacity: usize) -> (r: ValueBuilder)
        ensures
            r.value is None,
            r.capacity == capacity,
            r.inv(),
    {
        ValueBuilder { value: None, rows: 0, capacity }
    }

    /// Adds one row: the first row establishes the accumulator under a
    /// leading axis of one; a later row is appended along the leading
    /// axis after the dispatch's reconciliation - byte rows and number
    /// rows promote to each other, and a row whose shape is a prefix of
    /// the trailing shape is broadcast up, as binary dispatch broadcasts
    /// a lower-ranked operand. Reconciling rows beyond that with the
    /// context's fill value is outside this engine's boundary (as it is
    /// for the dispatcher's shape mismatches): an irreconcilable row
    /// fails and leaves the accumulator unchanged.
    #[allow(unused_variables)]
    pub fn add_row(&mut self, row: Value, env: &Env) -> (r: Result<(), EvalError>)
        requires
            old(self).inv(),
            row@.wf(),
        ensures
            final(self).inv(),
            final(self).capacity == old(self).capacity,
            match old(self).value {
                None => r is Ok && (final(self).value matches Some(v) && v@ == lead1(row@))
                    && final(self).rows == 1,
                Some(acc) => {
                    if rows_compat(acc@, row@) {
                        r is Ok && (final(self).value matches Some(v) && v@ == appended(
                            acc@,
                            row@,
                        )) && final(self).rows == old(self).rows + 1
                    } else {
                        r is Err && (final(self).value matches Some(v2) && v2@ == acc@)
                            && final(self).rows == old(self).rows
                    }
                },
            },
    {
        let ghost grow = row@;
        let mut cur: Option<Value> = None;
        core::mem::swap(&mut cur, &mut self.value);
        match cur {
            None => {
                let mut shape: Vec<usize> = Vec::new();
                shape.push(1);
                proof {
                    assert(shape@ =~= seq![1usize]);
                }
                let v = match row {
                    Value::Num(a) => {
                        let mut shape = shape;
                        let mut i: usize = 0;
                        append_shape(&mut shape, &a.shape);
                        Value::Num(Array { shape, data: a.data })
                    },
                    Value::Byte(a) => {
                        let mut shape = shape;
                        append_shape(&mut shape, &a.shape);
                        Value::Byte(Array { shape, data: a.data })
                    },
                    Value::Char(a) => {
                        let mut shape = shape;
                        append_shape(&mut shape, &a.shape);
                        Value::Char(Array { shape, data: a.data })
                    },
                    Value::Func(a) => {
                        let mut shape = shape;
                        append_shape(&mut shape, &a.shape);
                        proof {
                            crate::value::lemma_funcs_view(a.data@);
                        }
                        Value::Func(Array { shape, data: a.data })
                    },
                };
                proof {
                    assert(v@.shape() == seq![1usize] + grow.shape());
                    assert(v@.shape().drop_first() =~= grow.shape());
                    assert(shape_product(v@.shape()) == 1 * shape_product(grow.shape()));
                    vstd::arithmetic::mul::lemma_mul_basics(shape_product(grow.shape()));
                    assert(v@ == lead1(grow));
                }
                self.value = Some(v);
                self.rows = 1;
                Ok(())
            },
            Some(acc) => {
                match append_value(acc, row) {
                    Ok(v) => {
                        self.value = Some(v);
                        self.rows = self.rows + 1;
                        Ok(())
                    },
                    Err((acc, e)) => {
                        self.value = Some(acc);
                        Err(e)
                    },
                }
            },
        }
    }

    /// The accumulated value, or an empty byte array if no row was
    /// added.
    pub fn finish(self) -> (r: Value)
        ensures
            match self.value {
                Some(v) => r@ == v@,
                None => r@ == (ValV::Byte { shape: seq![0usize], elems: Seq::empty() }),
            },
    {
        match self.value {
            Some(v) => v,
            None => {
                let mut shape: Vec<usize> = Vec::new();
                shape.push(0);
                let r = Value::Byte(Array { shape, data: Vec::new() });
                proof {
                    assert(r@->Byte_shape =~= seq![0usize]);
                    assert(r@->Byte_elems =~= Seq::<u8>::empty());
                }
                r
            },
        }
    }
}

/// Appends the row's dimensions behind the leading axis.
fn append_shape(shape: &mut Vec<usize>, rest: &Vec<usize>)
    ensures
        final(shape)@ == old(shape)@ + rest@,
{
    let n = rest.len();
    let mut i: usize = 0;
    while i < n
        invariant
            i <= n,
            n == rest@.len(),
            shape@ == old(shape)@ + rest@.subrange(0, i as int),
        decreases n - i,
    {
        proof {
            assert(old(shape)@ + rest@.subrange(0, i as int) =~= shape@);
        }
        shape.push(rest[i]);
        proof {
            assert(shape@ =~= old(shape)@ + rest@.subrange(0, i + 1));
        }
        i = i + 1;
    }
    proof {
        assert(rest@.subrange(0, n as int) =~= rest@);
        assert(shape@ =~= old(shape)@ + rest@);
    }
}

/// Appends `row` along `acc`'s leading axis, broadcasting it to the
/// trailing shape by the dispatch's prefix rule, or hands both back on
/// a shape or kind mismatch.
fn append_value(acc: Value, row: Value) -> (r: Result<Value, (Value, EvalError)>)
    requires
        acc@.wf(),
        row@.wf(),
        acc@.shape().len() >= 1,
    ensures
        match r {
            Ok(v) => rows_compat(acc@, row@) && v@ == appended(acc@, row@) && v@.wf()
                && v@.shape().len() >= 1 && v@.shape()[0] == acc@.shape()[0] + 1,
            Err((back, _)) => back@ == acc@ && !rows_compat(acc@, row@),
        },
{
    let (ok_shape, rl, step) = broadcast_fits(acc.shape(), acc.flat_len(), row.shape());
    if !ok_shape {
        return Err((acc, fail2("row shape", " does not broadcast to the accumulated rows")));
    }
    let ghost tr = acc@.shape().drop_first();
    let ghost rs = row@.shape();
    let ghost gacc = acc@;
    let ghost grow = row@;
    match (acc, row) {
        (Value::Num(a), Value::Num(b)) => {
            let eb = bcast_copy(&b.data, step, rl, Ghost(rs), Ghost(tr));
            Ok(concat_num(a, eb))
        },
        (Value::Num(a), Value::Byte(b)) => {
            let eb = bcast_copy(&b.data, step, rl, Ghost(rs), Ghost(tr));
            let pb = crate::pervade::promote_pub(&eb);
            proof {
                assert(pb@ =~= promote(bcast_row(b.data@, rs, tr)));
            }
            Ok(concat_num(a, pb))
        },
        (Value::Byte(a), Value::Num(b)) => {
            let eb = bcast_copy(&b.data, step, rl, Ghost(rs), Ghost(tr));
            let pa = crate::pervade::promote_pub(&a.data);
            Ok(concat_num(Array { shape: a.shape, data: pa }, eb))
        },
        (Value::Byte(a), Value::Byte(b)) => {
            let eb = bcast_copy(&b.data, step, rl, Ghost(rs), Ghost(tr));
            let mut a = a;
            let ghost gsh = a.shape@;
            let ghost gea = a.data@;
            bump_lead(&mut a.shape);
            append_vec(&mut a.data, eb);
            proof {
                lemma_append_wf(gsh, gea.len() as int, rl as int);
            }
            Ok(Value::Byte(a))
        },
        (Value::Char(a), Value::Char(b)) => {
            let eb = bcast_copy(&b.data, step, rl, Ghost(rs), Ghost(tr));
            let mut a = a;
            let ghost gsh = a.shape@;
            let ghost gea = a.data@;
            bump_lead(&mut a.shape);
            append_vec(&mut a.data, eb);
            proof {
                lemma_append_wf(gsh, gea.len() as int, rl as int);
            }
            Ok(Value::Char(a))
        },
        (Value::Func(a), Value::Func(b)) => {
            let mut a = a;
            let ghost gsh = a.shape@;
            let ghost gea = a.data@;
            let ghost geb = b.data@;
            proof {
                crate::value::lemma_funcs_view(a.data@);
                crate::value::lemma_funcs_view(b.data@);
            }
            let eb = bcast_funcs(&b.data, step, rl, Ghost(rs), Ghost(tr));
            bump_lead(&mut a.shape);
            let ghost gebx = eb@;
            append_vec(&mut a.data, eb);
            proof {
                lemma_append_wf(gsh, gea.len() as int, rl as int);
                crate::value::lemma_funcs_view(a.data@);
                assert(a.data@ =~= gea + gebx);
                assert(crate::value::funcs_view(a.data@) =~= crate::value::funcs_view(gea)
                    + crate::value::funcs_view(gebx)) by {
                    crate::value::lemma_funcs_view(gea);
                    crate::value::lemma_funcs_view(gebx);
                };
                assert(crate::value::funcs_view(gebx) =~= bcast_row(
                    crate::value::funcs_view(geb),
                    rs,
                    tr,
                ));
                gacc.lemma_wf_func_elems();
                grow.lemma_wf_func_elems();
                assert forall|i: int| 0 <= i < crate::value::funcs_view(a.data@).len() implies (
                #[trigger] crate::value::funcs_view(a.data@)[i]).wf() by {
                    if i < gea.len() {
                        assert(crate::value::funcs_view(a.data@)[i] == gacc->Func_elems[i]);
                    } else {
                        lemma_bidx_in_range(rs, tr, i - gea.len());
                        assert(crate::value::funcs_view(a.data@)[i] == grow->Func_elems[bidx(
                            rs,
                            tr,
                            i - gea.len(),
                        )]);
                    }
                }
            }
            Ok(Value::Func(a))
        },
        (acc, _) => Err((acc, fail2("row kind", " does not match the accumulated rows"))),
    }
}

/// Whether the row's shape broadcasts to the accumulator's trailing
/// shape, with room for one more row; on success, the trailing row
/// length and the broadcast step.
fn broadcast_fits(acc_shape: &Vec<usize>, acc_flat: usize, row_shape: &Vec<usize>) -> (r: (
    bool,
    usize,
    usize,
))
    requires
        acc_shape@.len() >= 1,
        shape_product(acc_shape@) == acc_flat,
    ensures
        r.0 == (acc_shape@[0] < usize::MAX && row_shape@.len() <= acc_shape@.len() - 1
            && prefix_ok(row_shape@, acc_shape@.drop_first()) && shape_product(
            acc_shape@.drop_first(),
        ) <= usize::MAX),
        r.0 ==> r.1 == shape_product(acc_shape@.drop_first()),
        r.0 && r.1 > 0 ==> r.2 == bstep(row_shape@, acc_shape@.drop_first()) && r.2 > 0,
{
    let ghost tr = acc_shape@.drop_first();
    if acc_shape[0] == usize::MAX {
        return (false, 0, 0);
    }
    if row_shape.len() > acc_shape.len() - 1 {
        return (false, 0, 0);
    }
    let rr = row_shape.len();
    let mut i: usize = 0;
    while i < rr
        invariant
            i <= rr,
            rr == row_shape@.len(),
            rr <= acc_shape@.len() - 1,
            forall|j: int| 0 <= j < i ==> row_shape@[j] == acc_shape@[j + 1],
        decreases rr - i,
    {
        if row_shape[i] != acc_shape[i + 1] {
            proof {
                assert(row_shape@[i as int] != acc_shape@.drop_first()[i as int]);
            }
            return (false, 0, 0);
        }
        i = i + 1;
    }
    proof {
        assert(prefix_ok(row_shape@, tr));
    }
    let rl: usize;
    match crate::array::checked_product_from(acc_shape, 1) {
        Some(p) => {
            proof {
                assert(acc_shape@.subrange(1, acc_shape@.len() as int) =~= tr);
            }
            rl = p;
        },
        None => {
            proof {
                assert(acc_shape@.subrange(1, acc_shape@.len() as int) =~= tr);
            }
            return (false, 0, 0);
        },
    }
    if rl == 0 {
        return (true, 0, 1);
    }
    let step: usize;
    match crate::array::checked_product_from(acc_shape, 1 + row_shape.len()) {
        Some(t) => {
            proof {
                assert(acc_shape@.subrange(1 + rr as int, acc_shape@.len() as int) =~= tr.subrange(
                    rr as int,
                    tr.len() as int,
                ));
                lemma_bidx_in_range(row_shape@, tr, 0);
            }
            step = t;
        },
        None => {
            proof {
                assert(acc_shape@.subrange(1 + rr as int, acc_shape@.len() as int) =~= tr.subrange(
                    rr as int,
                    tr.len() as int,
                ));
                crate::pervade::lemma_prod_split(tr, rr as int);
                crate::array::lemma_product_nonneg(tr.subrange(0, rr as int));
                crate::array::lemma_product_nonneg(tr.subrange(rr as int, tr.len() as int));
                let p = shape_product(tr.subrange(0, rr as int));
                let t = shape_product(tr.subrange(rr as int, tr.len() as int));
                if p == 0 {
                    assert(shape_product(tr) == 0 * t);
                    assert(0 * t == 0) by {
                        vstd::arithmetic::mul::lemma_mul_basics(t);
                    };
                }
                vstd::arithmetic::mul::lemma_mul_inequality(1, p, t);
                assert(false);
            }
            step = 1;
        },
    }
    (true, rl, step)
}

/// The row's elements spread over the trailing shape, computed.
fn bcast_copy<T: Copy>(
    e: &Vec<T>,
    step: usize,
    rl: usize,
    Ghost(rs): Ghost<Seq<usize>>,
    Ghost(tr): Ghost<Seq<usize>>,
) -> (r: Vec<T>)
    requires
        prefix_ok(rs, tr),
        rs.len() <= tr.len(),
        shape_product(rs) == e@.len(),
        shape_product(tr) == rl,
        rl > 0 ==> step == bstep(rs, tr) && step > 0,
    ensures
        r@ == bcast_row(e@, rs, tr),
{
    let mut r: Vec<T> = Vec::new();
    let mut j: usize = 0;
    while j < rl
        invariant
            j <= rl,
            prefix_ok(rs, tr),
            rs.len() <= tr.len(),
            shape_product(rs) == e@.len(),
            shape_product(tr) == rl,
            rl > 0 ==> step == bstep(rs, tr) && step > 0,
            r@.len() == j,
            forall|k: int| 0 <= k < j ==> #[trigger] r@[k] == e@[bidx(rs, tr, k)],
        decreases rl - j,
    {
        proof {
            lemma_bidx_in_range(rs, tr, j as int);
        }
        r.push(e[j / step]);
        j = j + 1;
    }
    proof {
        assert(r@ =~= bcast_row(e@, rs, tr));
    }
    r
}

/// The row's function elements spread over the trailing shape.
fn bcast_funcs(
    e: &Vec<crate::func::Function>,
    step: usize,
    rl: usize,
    Ghost(rs): Ghost<Seq<usize>>,
    Ghost(tr): Ghost<Seq<usize>>,
) -> (r: Vec<crate::func::Function>)
    requires
        prefix_ok(rs, tr),
        rs.len() <= tr.len(),
        shape_product(rs) == e@.len(),
        shape_product(tr) == rl,
        rl > 0 ==> step == bstep(rs, tr) && step > 0,
    ensures
        crate::value::funcs_view(r@) == bcast_row(crate::value::funcs_view(e@), rs, tr),
{
    let mut r: Vec<crate::func::Function> = Vec::new();
    let mut j: usize = 0;
    proof {
        crate::value::lemma_funcs_view(e@);
    }
    while j < rl
        invariant
            j <= rl,
            prefix_ok(rs, tr),
            rs.len() <= tr.len(),
            shape_product(rs) == e@.len(),
            shape_product(tr) == rl,
            rl > 0 ==> step == bstep(rs, tr) && step > 0,
            r@.len() == j,
            forall|k: int|
                0 <= k < j ==> #[trigger] crate::func::func_view(r@[k]) == crate::func::func_view(
                    e@[bidx(rs, tr, k)],
                ),
        decreases rl - j,
    {
        proof {
            lemma_bidx_in_range(rs, tr, j as int);
        }
        r.push(e[j / step].dup());
        j = j + 1;
    }
    proof {
        crate::value::lemma_funcs_view(r@);
        crate::value::lemma_funcs_view(e@);
        assert forall|k: int| 0 <= k < rl implies #[trigger] crate::value::funcs_view(r@)[k]
            == bcast_row(crate::value::funcs_view(e@), rs, tr)[k] by {
            lemma_bidx_in_range(rs, tr, k);
        }
        assert(crate::value::funcs_view(r@) =~= bcast_row(crate::value::funcs_view(e@), rs, tr));
    }
    r
}

/// The appended accumulator keeps the shape invariant.
proof fn lemma_append_wf(sh: Seq<usize>, na: int, nb: int)
    requires
        sh.len() >= 1,
        sh[0] < usize::MAX,
        shape_product(sh) == na,
        shape_product(sh.drop_first()) == nb,
    ensures
        shape_product(seq![((sh[0] + 1) as usize)] + sh.drop_first()) == na + nb,
{
    let s2 = seq![((sh[0] + 1) as usize)] + sh.drop_first();
    assert(s2.drop_first() =~= sh.drop_first());
    assert(shape_product(s2) == (sh[0] + 1) * shape_product(sh.drop_first()));
    assert(shape_product(sh) == sh[0] * shape_product(sh.drop_first()));
    assert((sh[0] + 1) * shape_product(sh.drop_first()) == sh[0] * shape_product(sh.drop_first())
        + shape_product(sh.drop_first())) by {
        vstd::arithmetic::mul::lemma_mul_is_distributive_add_other_way(
            shape_product(sh.drop_first()),
            sh[0] as int,
            1,
        );
    };
}

/// Raises the leading axis by one.
fn bump_lead(shape: &mut Vec<usize>)
    requires
        old(shape)@.len() >= 1,
        old(shape)@[0] < usize::MAX,
    ensures
        final(shape)@ == seq![((old(shape)@[0] + 1) as usize)] + old(shape)@.drop_first(),
{
    let v0 = shape[0];
    shape.set(0, v0 + 1);
    proof {
        assert(shape@ =~= seq![((old(shape)@[0] + 1) as usize)] + old(shape)@.drop_first());
    }
}

/// Moves every element of `b` to the end of `a`.
fn append_vec<T>(a: &mut Vec<T>, b: Vec<T>)
    ensures
        final(a)@ == old(a)@ + b@,
{
    let mut b = b;
    let nb = b.len();
    let mut i: usize = 0;
    let ghost gb = b@;
    while i < nb
        invariant
            i <= nb,
            nb == gb.len(),
            b@ == gb.subrange(i as int, nb as int),
            a@ == old(a)@ + gb.subrange(0, i as int),
        decreases nb - i,
    {
        proof {
            assert(gb.subrange(i as int, nb as int).drop_first() =~= gb.subrange(
                i + 1,
                nb as int,
            ));
        }
        let x = b.remove(0);
        a.push(x);
        proof {
            assert(a@ =~= old(a)@ + gb.subrange(0, i + 1));
        }
        i = i + 1;
    }
    proof {
        assert(gb.subrange(0, nb as int) =~= gb);
        assert(a@ =~= old(a)@ + gb);
    }
}

/// Concatenates number data behind the accumulator's leading axis.
fn concat_num(a: Array<u64>, eb: Vec<u64>) -> (r: Value)
    requires
        a.wf(),
        a.spec_shape().len() >= 1,
        a.spec_shape()[0] < usize::MAX,
        shape_product(a.spec_shape().drop_first()) == eb@.len(),
    ensures
        r@ == (ValV::Num {
            shape: seq![((a.spec_shape()[0] + 1) as usize)] + a.spec_shape().drop_first(),
            elems: a.spec_data() + eb@,
        }),
        r@.wf(),
{
    let mut a = a;
    let ghost gsh = a.shape@;
    let ghost gea = a.data@;
    bump_lead(&mut a.shape);
    append_vec(&mut a.data, eb);
    proof {
        lemma_append_wf(gsh, gea.len() as int, eb@.len() as int);
    }
    Value::Num(a)
}

/// Broadcasting a row onto its own shape changes nothing.
pub proof fn lemma_bcast_row_identity<T>(e: Seq<T>, s: Seq<usize>)
    requires
        shape_product(s) == e.len(),
    ensures
        bcast_row(e, s, s) == e,
{
    assert(s.subrange(s.len() as int, s.len() as int) =~= Seq::<usize>::empty());
    assert(bstep(s, s) == 1);
    assert forall|j: int| 0 <= j < e.len() implies bcast_row(e, s, s)[j] == e[j] by {
        vstd::arithmetic::div_mod::lemma_div_basics(j);
    }
    assert(bcast_row(e, s, s) =~= e);
}

/// Builder equivalence: three same-kind, same-shape number rows
/// accumulate to exactly the value built directly from the leading
/// shape of three and the rows' concatenated flat data.
pub proof fn lemma_builder_rows(s: Seq<usize>, e1: Seq<u64>, e2: Seq<u64>, e3: Seq<u64>)
    requires
        shape_product(s) == e1.len(),
        e1.len() == e2.len(),
        e2.len() == e3.len(),
        e1.len() <= usize::MAX,
    ensures
        rows_compat(lead1(ValV::Num { shape: s, elems: e1 }), ValV::Num { shape: s, elems: e2 }),
        rows_compat(
            appended(
                lead1(ValV::Num { shape: s, elems: e1 }),
                ValV::Num { shape: s, elems: e2 },
            ),
            ValV::Num { shape: s, elems: e3 },
        ),
        appended(
            appended(lead1(ValV::Num { shape: s, elems: e1 }), ValV::Num { shape: s, elems: e2 }),
            ValV::Num { shape: s, elems: e3 },
        ) == (ValV::Num { shape: seq![3usize] + s, elems: e1 + e2 + e3 }),
{
    lemma_bcast_row_identity(e2, s);
    lemma_bcast_row_identity(e3, s);
    let v1 = lead1(ValV::Num { shape: s, elems: e1 });
    assert(v1.shape() == seq![1usize] + s);
    assert(v1.shape().drop_first() =~= s);
    let v2 = appended(v1, ValV::Num { shape: s, elems: e2 });
    assert(v2.shape() =~= seq![2usize] + s);
    assert(v2.shape().drop_first() =~= s);
    let v3 = appended(v2, ValV::Num { shape: s, elems: e3 });
    assert(v3.shape() =~= seq![3usize] + s);
    assert(v3->Num_elems =~= e1 + e2 + e3);
}

/// Builder equivalence for byte rows: the same accumulation law in byte
/// storage.
pub proof fn lemma_builder_rows_bytes(s: Seq<usize>, e1: Seq<u8>, e2: Seq<u8>, e3: Seq<u8>)
    requires
        shape_product(s) == e1.len(),
        e1.len() == e2.len(),
        e2.len() == e3.len(),
        e1.len() <= usize::MAX,
    ensures
        rows_compat(lead1(ValV::Byte { shape: s, elems: e1 }), ValV::Byte { shape: s, elems: e2 }),
        rows_compat(
            appended(
                lead1(ValV::Byte { shape: s, elems: e1 }),
                ValV::Byte { shape: s, elems: e2 },
            ),
            ValV::Byte { shape: s, elems: e3 },
        ),
        appended(
            appended(
                lead1(ValV::Byte { shape: s, elems: e1 }),
                ValV::Byte { shape: s, elems: e2 },
            ),
            ValV::Byte { shape: s, elems: e3 },
        ) == (ValV::Byte { shape: seq![3usize] + s, elems: e1 + e2 + e3 }),
{
    lemma_bcast_row_identity(e2, s);
    lemma_bcast_row_identity(e3, s);
    let v1 = lead1(ValV::Byte { shape: s, elems: e1 });
    assert(v1.shape() == seq![1usize] + s);
    assert(v1.shape().drop_first() =~= s);
    let v2 = appended(v1, ValV::Byte { shape: s, elems: e2 });
    assert(v2.shape() =~= seq![2usize] + s);
    assert(v2.shape().drop_first() =~= s);
    let v3 = appended(v2, ValV::Byte { shape: s, elems: e3 });
    assert(v3.shape() =~= seq![3usize] + s);
    assert(v3->Byte_elems =~= e1 + e2 + e3);
}

} // verus!
