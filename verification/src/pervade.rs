//! Pervasive binary dispatch: lifting a scalar operation over two whole
//! values. The dispatcher resolves the operand kinds, promotes byte
//! storage to numbers where the kinds mix, broadcasts shapes that agree
//! on a shared prefix, retries narrow byte arithmetic in the wide numeric
//! domain when the context has a fill value, and reaches one level into
//! boxed function arrays. The double scalar function itself is a
//! parameter: its input-output pairs are tracked exactly, so every
//! structural fact about the dispatch is proved for any scalar map.

use crate::array::{shape_product, Array};
use crate::bits::{byte_bits, byte_to_bits, is_nan, norm_key, norm_key_of, SIGN_PAT};
use crate::errors::EvalError;
use crate::func::{func_view, FuncV, Function, Signature};
use crate::value::{boxed_elem, funcs_view, lemma_funcs_view, ValV, Value};
use rayon::iter::{IndexedParallelIterator, IntoParallelRefMutIterator, ParallelIterator};
use vstd::prelude::*;

verus! {

/// The execution context this engine sees: an optional numeric fill
/// value (a double's bit pattern). The fill rescues narrow byte-domain
/// failures by retrying in the wide numeric domain; reconciling
/// prefix-incompatible shapes with the fill is outside this engine's
/// boundary, so shape mismatches fail whether or not a fill is set.
pub struct Env {
    pub num_fill: Option<u64>,
}

impl Env {
    pub fn new() -> (r: Env)
        ensures
            r.num_fill is None,
    {
        Env { num_fill: None }
    }

    pub fn with_fill(fill: u64) -> (r: Env)
        ensures
            r.num_fill == Some(fill),
    {
        Env { num_fill: Some(fill) }
    }

    pub fn num_fill(&self) -> (r: Option<u64>)
        ensures
            r == self.num_fill,
    {
        match &self.num_fill {
            Some(f) => Some(*f),
            None => None,
        }
    }
}

/// The binary pervasive operations: arithmetic, extrema, comparisons.
#[derive(PartialEq, Eq, Structural, Clone, Copy)]
pub enum BinOp {
    Add,
    Sub,
    Mul,
    Div,
    Modulus,
    Pow,
    Log,
    Atan2,
    Min,
    Max,
    Eq,
    Ne,
    Lt,
    Le,
    Gt,
    Ge,
}

impl BinOp {
    /// The comparison family, total across all four kinds.
    pub open spec fn is_cmp(self) -> bool {
        self == BinOp::Eq || self == BinOp::Ne || self == BinOp::Lt || self == BinOp::Le || self
            == BinOp::Gt || self == BinOp::Ge
    }

    pub fn is_cmp_op(&self) -> (r: bool)
        ensures
            r == self.is_cmp(),
    {
        match self {
            BinOp::Eq | BinOp::Ne | BinOp::Lt | BinOp::Le | BinOp::Gt | BinOp::Ge => true,
            _ => false,
        }
    }
}

/// IEEE equality of two encoded doubles: neither is a NaN and they are
/// the same number, the two zeros counting as equal.
pub open spec fn ieee_eq(x: u64, y: u64) -> bool {
    !is_nan(x) && !is_nan(y) && norm_key(x) == norm_key(y)
}

/// IEEE strict order of two encoded doubles: neither is a NaN and the
/// first is the smaller number.
pub open spec fn ieee_lt(x: u64, y: u64) -> bool {
    !is_nan(x) && !is_nan(y) && norm_key(x) < norm_key(y)
}

/// What a comparison answers, from equality and strict order.
pub open spec fn cmp_answer(op: BinOp, eq: bool, lt: bool) -> u8 {
    let yes = match op {
        BinOp::Eq => eq,
        BinOp::Ne => !eq,
        BinOp::Lt => lt,
        BinOp::Le => lt || eq,
        BinOp::Gt => !lt && !eq,
        BinOp::Ge => !lt,
        _ => false,
    };
    if yes {
        1u8
    } else {
        0u8
    }
}

/// A comparison on two numbers.
pub open spec fn cmp_num(op: BinOp, x: u64, y: u64) -> u8 {
    cmp_answer(op, ieee_eq(x, y), ieee_lt(x, y))
}

/// A comparison on two numbers, computed.
pub fn cmp_num_of(op: &BinOp, x: u64, y: u64) -> (r: u8)
    ensures
        r == cmp_num(*op, x, y),
{
    let nx = norm_key_of(x);
    let ny = norm_key_of(y);
    let nan_x = ((x >> 52u64) & 0x7ffu64) == 0x7ff && (x & 0xf_ffff_ffff_ffffu64) != 0;
    let nan_y = ((y >> 52u64) & 0x7ffu64) == 0x7ff && (y & 0xf_ffff_ffff_ffffu64) != 0;
    let eq = !nan_x && !nan_y && nx == ny;
    let lt = !nan_x && !nan_y && nx < ny;
    let yes = match op {
        BinOp::Eq => eq,
        BinOp::Ne => !eq,
        BinOp::Lt => lt,
        BinOp::Le => lt || eq,
        BinOp::Gt => !lt && !eq,
        BinOp::Ge => !lt,
        _ => false,
    };
    if yes {
        1
    } else {
        0
    }
}

/// Byte arithmetic stays in byte storage only where the exact result is
/// again a byte; `None` is the narrow-domain failure that the fill retry
/// rescues. Division is exact or fails; power, logarithm and the
/// arc tangent always take the wide path.
pub open spec fn byte_arith(op: BinOp, a: u8, b: u8) -> Option<u8> {
    match op {
        BinOp::Add => if a + b <= 255 {
            Some((a + b) as u8)
        } else {
            None
        },
        BinOp::Sub => if a >= b {
            Some((a - b) as u8)
        } else {
            None
        },
        BinOp::Mul => if a * b <= 255 {
            Some((a * b) as u8)
        } else {
            None
        },
        BinOp::Div => if b != 0 && a as int % b as int == 0 {
            Some((a as int / b as int) as u8)
        } else {
            None
        },
        BinOp::Modulus => if b != 0 {
            Some((a as int % b as int) as u8)
        } else {
            None
        },
        BinOp::Min => if a <= b {
            Some(a)
        } else {
            Some(b)
        },
        BinOp::Max => if a >= b {
            Some(a)
        } else {
            Some(b)
        },
        _ => None,
    }
}

/// Byte arithmetic, computed.
pub fn byte_arith_of(op: &BinOp, a: u8, b: u8) -> (r: Option<u8>)
    requires
        !op.is_cmp(),
    ensures
        r == byte_arith(*op, a, b),
{
    match op {
        BinOp::Add => {
            let s: u16 = a as u16 + b as u16;
            if s <= 255 {
                Some(s as u8)
            } else {
                None
            }
        },
        BinOp::Sub => {
            if a >= b {
                Some(a - b)
            } else {
                None
            }
        },
        BinOp::Mul => {
            proof {
                vstd::arithmetic::mul::lemma_mul_upper_bound(a as int, 255, b as int, 255);
            }
            let p: u16 = a as u16 * b as u16;
            if p <= 255 {
                Some(p as u8)
            } else {
                None
            }
        },
        BinOp::Div => {
            if b != 0 && a % b == 0 {
                Some(a / b)
            } else {
                None
            }
        },
        BinOp::Modulus => {
            if b != 0 {
                Some(a % b)
            } else {
                None
            }
        },
        BinOp::Min => {
            if a <= b {
                Some(a)
            } else {
                Some(b)
            }
        },
        BinOp::Max => {
            if a >= b {
                Some(a)
            } else {
                Some(b)
            }
        },
        _ => None,
    }
}

/// A comparison on two bytes: by their integer values, which agrees with
/// comparing their promoted numbers.
pub open spec fn cmp_byte(op: BinOp, a: u8, b: u8) -> u8 {
    cmp_answer(op, a == b, a < b)
}

pub fn cmp_byte_of(op: &BinOp, a: u8, b: u8) -> (r: u8)
    ensures
        r == cmp_byte(*op, a, b),
{
    let eq = a == b;
    let lt = a < b;
    let yes = match op {
        BinOp::Eq => eq,
        BinOp::Ne => !eq,
        BinOp::Lt => lt,
        BinOp::Le => lt || eq,
        BinOp::Gt => !lt && !eq,
        BinOp::Ge => !lt,
        _ => false,
    };
    if yes {
        1
    } else {
        0
    }
}

/// A comparison on two characters: by code point.
pub open spec fn cmp_char(op: BinOp, a: char, b: char) -> u8 {
    cmp_answer(op, a == b, (a as u32) < (b as u32))
}

pub fn cmp_char_of(op: &BinOp, a: char, b: char) -> (r: u8)
    ensures
        r == cmp_char(*op, a, b),
{
    let eq = a as u32 == b as u32;
    let lt = (a as u32) < (b as u32);
    proof {
        assert(a as u32 == b as u32 ==> a == b);
    }
    let yes = match op {
        BinOp::Eq => eq,
        BinOp::Ne => !eq,
        BinOp::Lt => lt,
        BinOp::Le => lt || eq,
        BinOp::Gt => !lt && !eq,
        BinOp::Ge => !lt,
        _ => false,
    };
    if yes {
        1
    } else {
        0
    }
}

/// What a comparison answers when the kinds alone decide: the left kind
/// ranks strictly below the right one.
pub open spec fn cmp_kind_lt(op: BinOp) -> u8 {
    cmp_answer(op, false, true)
}

/// As `cmp_kind_lt`, with the left kind strictly above.
pub open spec fn cmp_kind_gt(op: BinOp) -> u8 {
    cmp_answer(op, false, false)
}

pub fn cmp_kind_of(op: &BinOp, left_below: bool) -> (r: u8)
    ensures
        left_below ==> r == cmp_kind_lt(*op),
        !left_below ==> r == cmp_kind_gt(*op),
{
    let yes = match op {
        BinOp::Ne => true,
        BinOp::Lt => left_below,
        BinOp::Le => left_below,
        BinOp::Gt => !left_below,
        BinOp::Ge => !left_below,
        _ => false,
    };
    if yes {
        1
    } else {
        0
    }
}

/// Byte elements promoted to their canonical number patterns.
pub open spec fn promote(e: Seq<u8>) -> Seq<u64> {
    Seq::new(e.len(), |i: int| byte_bits(e[i]))
}

/// The shapes agree at every shared position: the broadcasting condition.
pub open spec fn prefix_ok(a: Seq<usize>, b: Seq<usize>) -> bool {
    forall|j: int| 0 <= j < a.len() && j < b.len() ==> a[j] == b[j]
}

/// The result shape of a broadcast: the higher-ranked operand's shape.
pub open spec fn bshape(a: Seq<usize>, b: Seq<usize>) -> Seq<usize> {
    if a.len() >= b.len() {
        a
    } else {
        b
    }
}

/// The broadcast step of the left operand: how many result positions
/// share one of its elements.
pub open spec fn bstep(a: Seq<usize>, b: Seq<usize>) -> int {
    if a.len() <= b.len() {
        shape_product(b.subrange(a.len() as int, b.len() as int))
    } else {
        1
    }
}

/// Which element of the left operand position `j` of the result reads.
pub open spec fn bidx(a: Seq<usize>, b: Seq<usize>, j: int) -> int {
    j / bstep(a, b)
}

/// A product splits at any position.
pub proof fn lemma_prod_split(s: Seq<usize>, k: int)
    requires
        0 <= k <= s.len(),
    ensures
        shape_product(s) == shape_product(s.subrange(0, k)) * shape_product(
            s.subrange(k, s.len() as int),
        ),
    decreases k,
{
    if k == 0 {
        assert(s.subrange(0, 0) =~= Seq::<usize>::empty());
        assert(s.subrange(0, s.len() as int) =~= s);
        assert(1 * shape_product(s) == shape_product(s)) by {
            vstd::arithmetic::mul::lemma_mul_basics(shape_product(s));
        };
    } else {
        lemma_prod_split(s.drop_first(), k - 1);
        assert(s.drop_first().subrange(0, k - 1) =~= s.subrange(0, k).drop_first());
        assert(s.drop_first().subrange(k - 1, s.drop_first().len() as int) =~= s.subrange(
            k,
            s.len() as int,
        ));
        let h = s[0] as int;
        let p1 = shape_product(s.subrange(0, k).drop_first());
        let p2 = shape_product(s.subrange(k, s.len() as int));
        assert(shape_product(s) == h * (p1 * p2));
        assert(h * (p1 * p2) == (h * p1) * p2) by {
            vstd::arithmetic::mul::lemma_mul_is_associative(h, p1, p2);
        };
        assert(shape_product(s.subrange(0, k)) == h * p1);
    }
}

/// Under matching prefixes, every result position reads a valid element
/// of each operand.
pub proof fn lemma_bidx_in_range(a: Seq<usize>, b: Seq<usize>, j: int)
    requires
        prefix_ok(a, b),
        a.len() <= b.len(),
        0 <= j < shape_product(b),
    ensures
        bstep(a, b) > 0,
        0 <= bidx(a, b, j) < shape_product(a),
{
    let ar = a.len() as int;
    let t = shape_product(b.subrange(ar, b.len() as int));
    lemma_prod_split(b, ar);
    assert(b.subrange(0, ar) =~= a);
    crate::array::lemma_product_nonneg(b.subrange(ar, b.len() as int));
    crate::array::lemma_product_nonneg(a);
    if t == 0 {
        assert(shape_product(b) == shape_product(a) * 0);
        assert(shape_product(a) * 0 == 0) by {
            vstd::arithmetic::mul::lemma_mul_basics(shape_product(a));
        };
    }
    assert(t > 0);
    assert(j / t >= 0) by {
        vstd::arithmetic::div_mod::lemma_div_pos_is_pos(j, t);
    };
    assert(j / t < shape_product(a)) by {
        vstd::arithmetic::mul::lemma_mul_is_commutative(shape_product(a), t);
        vstd::arithmetic::div_mod::lemma_multiply_divide_lt(j, t, shape_product(a));
    };
}

/// The boxing depth of a value: zero for the concrete kinds, one more
/// than the deepest boxed constant for a function array.
pub open spec fn vheight(v: crate::value::ValV) -> nat
    decreases v, 1int,
{
    match v {
        crate::value::ValV::Func { elems, .. } => 1 + funcs_vheight(elems),
        _ => 0,
    }
}

/// The deepest boxed constant among function elements.
pub open spec fn funcs_vheight(s: Seq<crate::func::FuncV>) -> nat
    decreases s, 0int,
{
    if s.len() == 0 {
        0
    } else {
        let h0 = func_vheight(s[0]);
        let hr = funcs_vheight(s.drop_first());
        if h0 >= hr {
            h0
        } else {
            hr
        }
    }
}

/// The boxing depth of one function element.
pub open spec fn func_vheight(f: crate::func::FuncV) -> nat
    decreases f, 1int,
{
    match f {
        crate::func::FuncV::Code(_, _) => 0,
        crate::func::FuncV::Const(_, v) => vheight(*v),
    }
}

/// Every element's depth is bounded by the sequence's.
pub proof fn lemma_funcs_vheight(s: Seq<crate::func::FuncV>)
    ensures
        forall|i: int| 0 <= i < s.len() ==> func_vheight(#[trigger] s[i]) <= funcs_vheight(s),
    decreases s,
{
    if s.len() > 0 {
        lemma_funcs_vheight(s.drop_first());
        assert forall|i: int| 0 <= i < s.len() implies func_vheight(#[trigger] s[i])
            <= funcs_vheight(s) by {
            if i > 0 {
                assert(s[i] == s.drop_first()[i - 1]);
            }
        }
    }
}

/// A comparison on two function elements: by their ordering keys.
pub open spec fn cmp_func(op: BinOp, f1: crate::func::FuncV, f2: crate::func::FuncV) -> u8 {
    let k1 = crate::ord::key_of_func(f1);
    let k2 = crate::ord::key_of_func(f2);
    cmp_answer(op, k1 == k2, crate::ord::lex_cmp(k1, k2) < 0)
}

/// The numeric zip of a broadcast: how the number paths of the dispatch
/// relate the operands to the result. Comparisons yield bytes 0 or 1;
/// anything else yields numbers whose elements stand in the scalar map's
/// input-output relation `rel`.
pub open spec fn num_num_ok(
    rel: spec_fn(u64, u64, u64) -> bool,
    op: BinOp,
    sa: Seq<usize>,
    ea: Seq<u64>,
    sb: Seq<usize>,
    eb: Seq<u64>,
    out: crate::value::ValV,
) -> bool {
    prefix_ok(sa, sb) && {
        let sh = bshape(sa, sb);
        let n = shape_product(sh);
        if op.is_cmp() {
            out matches crate::value::ValV::Byte { shape, elems } && shape == sh && elems.len()
                == n && forall|j: int|
                0 <= j < n ==> #[trigger] elems[j] == cmp_num(
                    op,
                    ea[bidx(sa, sb, j)],
                    eb[bidx(sb, sa, j)],
                )
        } else {
            out matches crate::value::ValV::Num { shape, elems } && shape == sh && elems.len()
                == n && forall|j: int|
                0 <= j < n ==> rel(ea[bidx(sa, sb, j)], eb[bidx(sb, sa, j)], #[trigger] elems[j])
        }
    }
}

/// Whether byte arithmetic succeeds at every broadcast position.
pub open spec fn byte_all_ok(op: BinOp, sa: Seq<usize>, ea: Seq<u8>, sb: Seq<usize>, eb: Seq<u8>) -> bool {
    forall|j: int|
        0 <= j < shape_product(bshape(sa, sb)) ==> #[trigger] byte_arith(
            op,
            ea[bidx(sa, sb, j)],
            eb[bidx(sb, sa, j)],
        ) is Some
}

/// The elementwise zip of two values through one level of boxing: every
/// paired element must be a boxed constant, and each result element
/// reboxes a result related to the unboxed pair.
pub open spec fn boxed_ok(
    rel: spec_fn(u64, u64, u64) -> bool,
    op: BinOp,
    a: crate::value::ValV,
    b: crate::value::ValV,
    fill: bool,
    out: crate::value::ValV,
) -> bool
    decreases vheight(a) + vheight(b), 0int,
    when vheight(a) + vheight(b) >= 1
    via boxed_ok_dec
{
    let sa = a.shape();
    let sb = b.shape();
    let sh = bshape(sa, sb);
    let n = shape_product(sh);
    prefix_ok(sa, sb) && (forall|j: int|
        0 <= j < n ==> (#[trigger] crate::value::boxed_elem(a, bidx(sa, sb, j))).boxed() is Some
            && crate::value::boxed_elem(b, bidx(sb, sa, j)).boxed() is Some) && (out
        matches crate::value::ValV::Func { shape, elems } && shape == sh && elems.len() == n
        && forall|j: int|
        0 <= j < n ==> (0 <= bidx(sa, sb, j) < a.flat_len() && 0 <= bidx(sb, sa, j)
            < b.flat_len() && ((#[trigger] elems[j]) matches crate::func::FuncV::Const(sig, v)
            && sig == (crate::func::Signature { args: 0, outputs: 1 }) && bin_ok(
            rel,
            op,
            crate::value::boxed_elem(a, bidx(sa, sb, j)).boxed()->Some_0,
            crate::value::boxed_elem(b, bidx(sb, sa, j)).boxed()->Some_0,
            fill,
            *v,
        ))))
}

#[via_fn]
proof fn boxed_ok_dec(
    rel: spec_fn(u64, u64, u64) -> bool,
    op: BinOp,
    a: crate::value::ValV,
    b: crate::value::ValV,
    fill: bool,
    out: crate::value::ValV,
) {
    lemma_boxed_heights(a, b);
}

/// Unboxing any in-range pair of elements strictly lowers the summed
/// boxing depth, the ground of the dispatch's recursion.
pub proof fn lemma_boxed_heights(a: crate::value::ValV, b: crate::value::ValV)
    requires
        vheight(a) + vheight(b) >= 1,
    ensures
        forall|i: int, k: int|
            (0 <= i < a.flat_len() && 0 <= k < b.flat_len() && (#[trigger] crate::value::boxed_elem(
                a,
                i,
            )).boxed() is Some && (#[trigger] crate::value::boxed_elem(b, k)).boxed() is Some)
                ==> vheight(crate::value::boxed_elem(a, i).boxed()->Some_0) + vheight(
                crate::value::boxed_elem(b, k).boxed()->Some_0,
            ) < vheight(a) + vheight(b),
{
    if a is Func {
        lemma_funcs_vheight(a->Func_elems);
    }
    if b is Func {
        lemma_funcs_vheight(b->Func_elems);
    }
    assert forall|i: int, k: int|
        (0 <= i < a.flat_len() && 0 <= k < b.flat_len() && (#[trigger] crate::value::boxed_elem(
            a,
            i,
        )).boxed() is Some && (#[trigger] crate::value::boxed_elem(b, k)).boxed() is Some) implies
        vheight(crate::value::boxed_elem(a, i).boxed()->Some_0) + vheight(
        crate::value::boxed_elem(b, k).boxed()->Some_0,
    ) < vheight(a) + vheight(b) by {
        if a is Func {
            assert(func_vheight(a->Func_elems[i]) <= funcs_vheight(a->Func_elems));
        }
        if b is Func {
            assert(func_vheight(b->Func_elems[k]) <= funcs_vheight(b->Func_elems));
        }
    }
}

/// What the dispatch may return: the complete result relation of a
/// pervasive binary operation, by the priority order of the dispatcher.
pub open spec fn bin_ok(
    rel: spec_fn(u64, u64, u64) -> bool,
    op: BinOp,
    a: crate::value::ValV,
    b: crate::value::ValV,
    fill: bool,
    out: crate::value::ValV,
) -> bool
    decreases vheight(a) + vheight(b), 1int,
{
    if a is Func && b is Func && op.is_cmp() {
        let sa = a.shape();
        let sb = b.shape();
        let sh = bshape(sa, sb);
        let n = shape_product(sh);
        let ea = a->Func_elems;
        let eb = b->Func_elems;
        prefix_ok(sa, sb) && (out matches crate::value::ValV::Byte { shape, elems } && shape == sh
            && elems.len() == n && forall|j: int|
            0 <= j < n ==> #[trigger] elems[j] == cmp_func(
                op,
                ea[bidx(sa, sb, j)],
                eb[bidx(sb, sa, j)],
            ))
    } else if a is Func && a.shape().len() == 0 && a->Func_elems.len() == 1 && a->Func_elems[0]
        is Const {
        bin_ok(rel, op, *a->Func_elems[0]->Const_1, b, fill, out)
    } else if a is Func {
        boxed_ok(rel, op, a, b, fill, out)
    } else if b is Func && b.shape().len() == 0 && b->Func_elems.len() == 1 && b->Func_elems[0]
        is Const {
        bin_ok(rel, op, a, *b->Func_elems[0]->Const_1, fill, out)
    } else if b is Func {
        boxed_ok(rel, op, a, b, fill, out)
    } else {
        match (a, b) {
            (
                crate::value::ValV::Num { shape: sa, elems: ea },
                crate::value::ValV::Num { shape: sb, elems: eb },
            ) => num_num_ok(rel, op, sa, ea, sb, eb, out),
            (
                crate::value::ValV::Num { shape: sa, elems: ea },
                crate::value::ValV::Byte { shape: sb, elems: eb },
            ) => num_num_ok(rel, op, sa, ea, sb, promote(eb), out),
            (
                crate::value::ValV::Byte { shape: sa, elems: ea },
                crate::value::ValV::Num { shape: sb, elems: eb },
            ) => num_num_ok(rel, op, sa, promote(ea), sb, eb, out),
            (
                crate::value::ValV::Byte { shape: sa, elems: ea },
                crate::value::ValV::Byte { shape: sb, elems: eb },
            ) => {
                if op.is_cmp() {
                    prefix_ok(sa, sb) && {
                        let sh = bshape(sa, sb);
                        let n = shape_product(sh);
                        out matches crate::value::ValV::Byte { shape, elems } && shape == sh
                            && elems.len() == n && forall|j: int|
                            0 <= j < n ==> #[trigger] elems[j] == cmp_byte(
                                op,
                                ea[bidx(sa, sb, j)],
                                eb[bidx(sb, sa, j)],
                            )
                    }
                } else if byte_all_ok(op, sa, ea, sb, eb) {
                    prefix_ok(sa, sb) && {
                        let sh = bshape(sa, sb);
                        let n = shape_product(sh);
                        out matches crate::value::ValV::Byte { shape, elems } && shape == sh
                            && elems.len() == n && forall|j: int|
                            0 <= j < n ==> #[trigger] elems[j] == byte_arith(
                                op,
                                ea[bidx(sa, sb, j)],
                                eb[bidx(sb, sa, j)],
                            )->Some_0
                    }
                } else if fill {
                    num_num_ok(rel, op, sa, promote(ea), sb, promote(eb), out)
                } else {
                    false
                }
            },
            (
                crate::value::ValV::Char { shape: sa, elems: ea },
                crate::value::ValV::Char { shape: sb, elems: eb },
            ) => {
                prefix_ok(sa, sb) && {
                    let sh = bshape(sa, sb);
                    let n = shape_product(sh);
                    if op.is_cmp() {
                        out matches crate::value::ValV::Byte { shape, elems } && shape == sh
                            && elems.len() == n && forall|j: int|
                            0 <= j < n ==> #[trigger] elems[j] == cmp_char(
                                op,
                                ea[bidx(sa, sb, j)],
                                eb[bidx(sb, sa, j)],
                            )
                    } else if op == BinOp::Min || op == BinOp::Max {
                        out matches crate::value::ValV::Char { shape, elems } && shape == sh
                            && elems.len() == n && forall|j: int|
                            0 <= j < n ==> #[trigger] elems[j] == minmax_char(
                                op,
                                ea[bidx(sa, sb, j)],
                                eb[bidx(sb, sa, j)],
                            )
                    } else {
                        false
                    }
                }
            },
            (crate::value::ValV::Char { shape: sa, .. }, _) => {
                op.is_cmp() && prefix_ok(sa, b.shape()) && kind_const_ok(op, sa, b.shape(), false, out)
            },
            (_, crate::value::ValV::Char { shape: sb, .. }) => {
                op.is_cmp() && prefix_ok(a.shape(), sb) && kind_const_ok(op, a.shape(), sb, true, out)
            },
            _ => false,
        }
    }
}

/// The smaller or larger of two characters, by code point.
pub open spec fn minmax_char(op: BinOp, a: char, b: char) -> char {
    if op == BinOp::Min {
        if a as u32 <= b as u32 {
            a
        } else {
            b
        }
    } else {
        if a as u32 >= b as u32 {
            a
        } else {
            b
        }
    }
}

/// A comparison decided by kind rank alone: a constant byte array over
/// the broadcast shape. `left_below` says the left operand's kind ranks
/// below the right one's.
pub open spec fn kind_const_ok(
    op: BinOp,
    sa: Seq<usize>,
    sb: Seq<usize>,
    left_below: bool,
    out: crate::value::ValV,
) -> bool {
    let sh = bshape(sa, sb);
    let n = shape_product(sh);
    let c = if left_below {
        cmp_kind_lt(op)
    } else {
        cmp_kind_gt(op)
    };
    out matches crate::value::ValV::Byte { shape, elems } && shape == sh && elems.len() == n
        && forall|j: int| 0 <= j < n ==> #[trigger] elems[j] == c
}

/// When a pervasive binary operation fails: a shape mismatch, a byte
/// domain failure with no fill to rescue it, an operation the kind pair
/// does not support, or a function element that is not a box - each also
/// through one level of boxing.
pub open spec fn bin_fails(
    op: BinOp,
    a: crate::value::ValV,
    b: crate::value::ValV,
    fill: bool,
) -> bool
    decreases vheight(a) + vheight(b), 1int,
{
    if a is Func && b is Func && op.is_cmp() {
        !prefix_ok(a.shape(), b.shape())
    } else if a is Func && a.shape().len() == 0 && a->Func_elems.len() == 1 && a->Func_elems[0]
        is Const {
        bin_fails(op, *a->Func_elems[0]->Const_1, b, fill)
    } else if a is Func {
        boxed_fails(op, a, b, fill)
    } else if b is Func && b.shape().len() == 0 && b->Func_elems.len() == 1 && b->Func_elems[0]
        is Const {
        bin_fails(op, a, *b->Func_elems[0]->Const_1, fill)
    } else if b is Func {
        boxed_fails(op, a, b, fill)
    } else {
        match (a, b) {
            (
                crate::value::ValV::Byte { shape: sa, elems: ea },
                crate::value::ValV::Byte { shape: sb, elems: eb },
            ) => !prefix_ok(sa, sb) || (!op.is_cmp() && !byte_all_ok(op, sa, ea, sb, eb) && !fill),
            (crate::value::ValV::Char { shape: sa, .. }, crate::value::ValV::Char {
                shape: sb,
                ..
            }) => !prefix_ok(sa, sb) || !(op.is_cmp() || op == BinOp::Min || op == BinOp::Max),
            (crate::value::ValV::Char { .. }, _) => !op.is_cmp() || !prefix_ok(
                a.shape(),
                b.shape(),
            ),
            (_, crate::value::ValV::Char { .. }) => !op.is_cmp() || !prefix_ok(
                a.shape(),
                b.shape(),
            ),
            _ => !prefix_ok(a.shape(), b.shape()),
        }
    }
}

/// When the boxed elementwise zip fails.
pub open spec fn boxed_fails(
    op: BinOp,
    a: crate::value::ValV,
    b: crate::value::ValV,
    fill: bool,
) -> bool
    decreases vheight(a) + vheight(b), 0int,
    when vheight(a) + vheight(b) >= 1
    via boxed_fails_dec
{
    let sa = a.shape();
    let sb = b.shape();
    let n = shape_product(bshape(sa, sb));
    !prefix_ok(sa, sb) || (exists|j: int|
        0 <= j < n && !((#[trigger] crate::value::boxed_elem(a, bidx(sa, sb, j))).boxed() is Some
            && crate::value::boxed_elem(b, bidx(sb, sa, j)).boxed() is Some)) || (exists|j: int|
        0 <= j < n && 0 <= bidx(sa, sb, j) < a.flat_len() && 0 <= bidx(sb, sa, j) < b.flat_len()
            && (#[trigger] crate::value::boxed_elem(a, bidx(sa, sb, j))).boxed() is Some
            && crate::value::boxed_elem(b, bidx(sb, sa, j)).boxed() is Some && bin_fails(
            op,
            crate::value::boxed_elem(a, bidx(sa, sb, j)).boxed()->Some_0,
            crate::value::boxed_elem(b, bidx(sb, sa, j)).boxed()->Some_0,
            fill,
        ))
}

#[via_fn]
proof fn boxed_fails_dec(op: BinOp, a: crate::value::ValV, b: crate::value::ValV, fill: bool) {
    lemma_boxed_heights(a, b);
}

/// The input-output relation of the scalar double map.
pub open spec fn frel<F: Fn(u64, u64) -> u64>(f: F) -> spec_fn(u64, u64, u64) -> bool {
    |x: u64, y: u64, z: u64| call_ensures(f, (x, y), z)
}

/// Whether two shapes agree at every shared position.
fn prefixes_match_vec(a: &Vec<usize>, b: &Vec<usize>) -> (r: bool)
    ensures
        r == prefix_ok(a@, b@),
{
    let n = if a.len() < b.len() {
        a.len()
    } else {
        b.len()
    };
    let mut i: usize = 0;
    while i < n
        invariant
            i <= n,
            n == if a@.len() < b@.len() {
                a@.len()
            } else {
                b@.len()
            },
            forall|j: int| 0 <= j < i ==> a@[j] == b@[j],
        decreases n - i,
    {
        if a[i] != b[i] {
            return false;
        }
        i = i + 1;
    }
    true
}

/// The broadcast layout of two shapes: the result shape, its flat length,
/// and the two divisors that map a result position to operand positions.
struct Plan {
    shape: Vec<usize>,
    n: usize,
    ta: usize,
    tb: usize,
}

impl Plan {
    spec fn ok(&self, sa: Seq<usize>, sb: Seq<usize>) -> bool {
        &&& self.shape@ == bshape(sa, sb)
        &&& self.n == shape_product(bshape(sa, sb))
        &&& self.n > 0 ==> self.ta == bstep(sa, sb) && self.tb == bstep(sb, sa) && self.ta > 0
            && self.tb > 0
    }
}

/// Computes the broadcast layout; the operands' flat lengths must equal
/// their shape products.
fn make_plan(sa: &Vec<usize>, na: usize, sb: &Vec<usize>, nb: usize) -> (r: Plan)
    requires
        prefix_ok(sa@, sb@),
        shape_product(sa@) == na,
        shape_product(sb@) == nb,
    ensures
        r.ok(sa@, sb@),
        r.n == if sa@.len() >= sb@.len() {
            na as int
        } else {
            nb as int
        },
{
    let ra = sa.len();
    let rb = sb.len();
    let n: usize = if ra >= rb {
        na
    } else {
        nb
    };
    let shape: Vec<usize> = if ra >= rb {
        crate::array::dup_vec(sa)
    } else {
        crate::array::dup_vec(sb)
    };
    if n == 0 {
        return Plan { shape, n, ta: 1, tb: 1 };
    }
    proof {
        if ra == rb {
            assert(sa@ =~= sb@);
        }
    }
    let ta: usize = if ra <= rb {
        tail_step(sa, sb, nb)
    } else {
        1
    };
    let tb: usize = if rb <= ra {
        tail_step(sb, sa, na)
    } else {
        1
    };
    proof {
        if ra <= rb {
            lemma_bidx_in_range(sa@, sb@, 0);
        }
        if rb <= ra {
            lemma_bidx_in_range(sb@, sa@, 0);
        }
    }
    Plan { shape, n, ta, tb }
}

/// The trailing product that one broadcast step spans.
fn tail_step(sa: &Vec<usize>, sb: &Vec<usize>, nb: usize) -> (t: usize)
    requires
        prefix_ok(sa@, sb@),
        sa@.len() <= sb@.len(),
        shape_product(sb@) == nb,
        nb > 0,
    ensures
        t == bstep(sa@, sb@),
        t > 0,
{
    match crate::array::checked_product_from(sb, sa.len()) {
        Some(t) => {
            proof {
                lemma_bidx_in_range(sa@, sb@, 0);
            }
            t
        },
        None => {
            proof {
                lemma_prod_split(sb@, sa@.len() as int);
                crate::array::lemma_product_nonneg(sb@.subrange(0, sa@.len() as int));
                crate::array::lemma_product_nonneg(
                    sb@.subrange(sa@.len() as int, sb@.len() as int),
                );
                let p = shape_product(sb@.subrange(0, sa@.len() as int));
                let t = shape_product(sb@.subrange(sa@.len() as int, sb@.len() as int));
                if p == 0 {
                    assert(shape_product(sb@) == 0 * t);
                    assert(0 * t == 0) by {
                        vstd::arithmetic::mul::lemma_mul_basics(t);
                    };
                }
                vstd::arithmetic::mul::lemma_mul_inequality(1, p, t);
                assert(false);
            }
            1
        },
    }
}

/// The numeric zip: broadcasts and applies the scalar double map, or for
/// a comparison the exact numeric comparison.
fn num_zip<F: Fn(u64, u64) -> u64>(
    op: &BinOp,
    sa: &Vec<usize>,
    ea: &Vec<u64>,
    sb: &Vec<usize>,
    eb: &Vec<u64>,
    num_f: &F,
) -> (r: Value)
    requires
        prefix_ok(sa@, sb@),
        shape_product(sa@) == ea@.len(),
        shape_product(sb@) == eb@.len(),
        forall|x: u64, y: u64| #[trigger] call_requires(*num_f, (x, y)),
    ensures
        num_num_ok(frel(*num_f), *op, sa@, ea@, sb@, eb@, r@),
        r@.wf(),
{
    let plan = make_plan(sa, ea.len(), sb, eb.len());
    proof {
        if sa@.len() == sb@.len() {
            assert(sa@ =~= sb@);
        }
    }
    let is_cmp = op.is_cmp_op();
    let mut outn: Vec<u64> = Vec::new();
    let mut outb: Vec<u8> = Vec::new();
    let mut j: usize = 0;
    while j < plan.n
        invariant
            j <= plan.n,
            plan.ok(sa@, sb@),
            prefix_ok(sa@, sb@),
            shape_product(sa@) == ea@.len(),
            shape_product(sb@) == eb@.len(),
            sa@.len() == sb@.len() ==> sa@ == sb@,
            is_cmp == op.is_cmp(),
            forall|x: u64, y: u64| #[trigger] call_requires(*num_f, (x, y)),
            is_cmp ==> outn@.len() == 0 && outb@.len() == j && forall|k: int|
                0 <= k < j ==> #[trigger] outb@[k] == cmp_num(
                    *op,
                    ea@[bidx(sa@, sb@, k)],
                    eb@[bidx(sb@, sa@, k)],
                ),
            !is_cmp ==> outb@.len() == 0 && outn@.len() == j && forall|k: int|
                0 <= k < j ==> call_ensures(
                    *num_f,
                    (ea@[bidx(sa@, sb@, k)], eb@[bidx(sb@, sa@, k)]),
                    #[trigger] outn@[k],
                ),
        decreases plan.n - j,
    {
        proof {
            if sa@.len() <= sb@.len() {
                lemma_bidx_in_range(sa@, sb@, j as int);
            } else {
                lemma_bidx_in_range(sb@, sa@, j as int);
            }
            vstd::arithmetic::div_mod::lemma_div_basics(j as int);
        }
        let xa = ea[j / plan.ta];
        let xb = eb[j / plan.tb];
        if is_cmp {
            outb.push(cmp_num_of(op, xa, xb));
        } else {
            outn.push(num_f(xa, xb));
        }
        j = j + 1;
    }
    if is_cmp {
        Value::Byte(Array { shape: plan.shape, data: outb })
    } else {
        Value::Num(Array { shape: plan.shape, data: outn })
    }
}

/// The byte comparison zip.
fn byte_cmp_zip(op: &BinOp, sa: &Vec<usize>, ea: &Vec<u8>, sb: &Vec<usize>, eb: &Vec<u8>) -> (r:
    Value)
    requires
        op.is_cmp(),
        prefix_ok(sa@, sb@),
        shape_product(sa@) == ea@.len(),
        shape_product(sb@) == eb@.len(),
    ensures
        r@ matches ValV::Byte { shape, elems } && shape == bshape(sa@, sb@) && elems.len()
            == shape_product(bshape(sa@, sb@)) && (forall|j: int|
            0 <= j < elems.len() ==> #[trigger] elems[j] == cmp_byte(
                *op,
                ea@[bidx(sa@, sb@, j)],
                eb@[bidx(sb@, sa@, j)],
            )),
        r@.wf(),
{
    let plan = make_plan(sa, ea.len(), sb, eb.len());
    proof {
        if sa@.len() == sb@.len() {
            assert(sa@ =~= sb@);
        }
    }
    let mut out: Vec<u8> = Vec::new();
    let mut j: usize = 0;
    while j < plan.n
        invariant
            j <= plan.n,
            plan.ok(sa@, sb@),
            prefix_ok(sa@, sb@),
            shape_product(sa@) == ea@.len(),
            shape_product(sb@) == eb@.len(),
            sa@.len() == sb@.len() ==> sa@ == sb@,
            out@.len() == j,
            forall|k: int|
                0 <= k < j ==> #[trigger] out@[k] == cmp_byte(
                    *op,
                    ea@[bidx(sa@, sb@, k)],
                    eb@[bidx(sb@, sa@, k)],
                ),
        decreases plan.n - j,
    {
        proof {
            if sa@.len() <= sb@.len() {
                lemma_bidx_in_range(sa@, sb@, j as int);
            } else {
                lemma_bidx_in_range(sb@, sa@, j as int);
            }
            vstd::arithmetic::div_mod::lemma_div_basics(j as int);
        }
        out.push(cmp_byte_of(op, ea[j / plan.ta], eb[j / plan.tb]));
        j = j + 1;
    }
    Value::Byte(Array { shape: plan.shape, data: out })
}

/// The byte arithmetic zip: exact byte results, or `None` on the first
/// narrow-domain failure.
fn byte_try_zip(op: &BinOp, sa: &Vec<usize>, ea: &Vec<u8>, sb: &Vec<usize>, eb: &Vec<u8>) -> (r:
    Option<Value>)
    requires
        !op.is_cmp(),
        prefix_ok(sa@, sb@),
        shape_product(sa@) == ea@.len(),
        shape_product(sb@) == eb@.len(),
    ensures
        match r {
            Some(v) => byte_all_ok(*op, sa@, ea@, sb@, eb@) && v@.wf() && (v@ matches ValV::Byte {
                shape,
                elems,
            } && shape == bshape(sa@, sb@) && elems.len() == shape_product(bshape(sa@, sb@)) && (
            forall|j: int|
                0 <= j < elems.len() ==> #[trigger] elems[j] == byte_arith(
                    *op,
                    ea@[bidx(sa@, sb@, j)],
                    eb@[bidx(sb@, sa@, j)],
                )->Some_0)),
            None => !byte_all_ok(*op, sa@, ea@, sb@, eb@),
        },
{
    let plan = make_plan(sa, ea.len(), sb, eb.len());
    proof {
        if sa@.len() == sb@.len() {
            assert(sa@ =~= sb@);
        }
    }
    let mut out: Vec<u8> = Vec::new();
    let mut j: usize = 0;
    while j < plan.n
        invariant
            j <= plan.n,
            plan.ok(sa@, sb@),
            !op.is_cmp(),
            prefix_ok(sa@, sb@),
            shape_product(sa@) == ea@.len(),
            shape_product(sb@) == eb@.len(),
            sa@.len() == sb@.len() ==> sa@ == sb@,
            out@.len() == j,
            forall|k: int|
                0 <= k < j ==> byte_arith(
                    *op,
                    ea@[bidx(sa@, sb@, k)],
                    eb@[bidx(sb@, sa@, k)],
                ) is Some,
            forall|k: int|
                0 <= k < j ==> #[trigger] out@[k] == byte_arith(
                    *op,
                    ea@[bidx(sa@, sb@, k)],
                    eb@[bidx(sb@, sa@, k)],
                )->Some_0,
        decreases plan.n - j,
    {
        proof {
            if sa@.len() <= sb@.len() {
                lemma_bidx_in_range(sa@, sb@, j as int);
            } else {
                lemma_bidx_in_range(sb@, sa@, j as int);
            }
            vstd::arithmetic::div_mod::lemma_div_basics(j as int);
        }
        match byte_arith_of(op, ea[j / plan.ta], eb[j / plan.tb]) {
            Some(v) => {
                out.push(v);
            },
            None => {
                return None;
            },
        }
        j = j + 1;
    }
    Some(Value::Byte(Array { shape: plan.shape, data: out }))
}

/// The character zip: a comparison, or the smaller or larger character.
fn char_zip(op: &BinOp, sa: &Vec<usize>, ea: &Vec<char>, sb: &Vec<usize>, eb: &Vec<char>) -> (r:
    Value)
    requires
        op.is_cmp() || *op == BinOp::Min || *op == BinOp::Max,
        prefix_ok(sa@, sb@),
        shape_product(sa@) == ea@.len(),
        shape_product(sb@) == eb@.len(),
    ensures
        op.is_cmp() ==> (r@ matches ValV::Byte { shape, elems } && shape == bshape(sa@, sb@)
            && elems.len() == shape_product(bshape(sa@, sb@)) && (forall|j: int|
            0 <= j < elems.len() ==> #[trigger] elems[j] == cmp_char(
                *op,
                ea@[bidx(sa@, sb@, j)],
                eb@[bidx(sb@, sa@, j)],
            ))),
        !op.is_cmp() ==> (r@ matches ValV::Char { shape, elems } && shape == bshape(sa@, sb@)
            && elems.len() == shape_product(bshape(sa@, sb@)) && (forall|j: int|
            0 <= j < elems.len() ==> #[trigger] elems[j] == minmax_char(
                *op,
                ea@[bidx(sa@, sb@, j)],
                eb@[bidx(sb@, sa@, j)],
            ))),
        r@.wf(),
{
    let plan = make_plan(sa, ea.len(), sb, eb.len());
    proof {
        if sa@.len() == sb@.len() {
            assert(sa@ =~= sb@);
        }
    }
    let is_cmp = op.is_cmp_op();
    let mut outb: Vec<u8> = Vec::new();
    let mut outc: Vec<char> = Vec::new();
    let mut j: usize = 0;
    while j < plan.n
        invariant
            j <= plan.n,
            plan.ok(sa@, sb@),
            prefix_ok(sa@, sb@),
            shape_product(sa@) == ea@.len(),
            shape_product(sb@) == eb@.len(),
            sa@.len() == sb@.len() ==> sa@ == sb@,
            is_cmp == op.is_cmp(),
            is_cmp ==> outc@.len() == 0 && outb@.len() == j && forall|k: int|
                0 <= k < j ==> #[trigger] outb@[k] == cmp_char(
                    *op,
                    ea@[bidx(sa@, sb@, k)],
                    eb@[bidx(sb@, sa@, k)],
                ),
            !is_cmp ==> outb@.len() == 0 && outc@.len() == j && forall|k: int|
                0 <= k < j ==> #[trigger] outc@[k] == minmax_char(
                    *op,
                    ea@[bidx(sa@, sb@, k)],
                    eb@[bidx(sb@, sa@, k)],
                ),
        decreases plan.n - j,
    {
        proof {
            if sa@.len() <= sb@.len() {
                lemma_bidx_in_range(sa@, sb@, j as int);
            } else {
                lemma_bidx_in_range(sb@, sa@, j as int);
            }
            vstd::arithmetic::div_mod::lemma_div_basics(j as int);
        }
        let ca = ea[j / plan.ta];
        let cb = eb[j / plan.tb];
        if is_cmp {
            outb.push(cmp_char_of(op, ca, cb));
        } else {
            let keep_a = if *op == BinOp::Min {
                ca as u32 <= cb as u32
            } else {
                ca as u32 >= cb as u32
            };
            outc.push(
                if keep_a {
                    ca
                } else {
                    cb
                },
            );
        }
        j = j + 1;
    }
    if is_cmp {
        Value::Byte(Array { shape: plan.shape, data: outb })
    } else {
        Value::Char(Array { shape: plan.shape, data: outc })
    }
}

/// The kind-decided comparison: a constant byte over the broadcast shape.
fn kind_const_zip(op: &BinOp, sa: &Vec<usize>, na: usize, sb: &Vec<usize>, nb: usize, left_below:
    bool) -> (r: Value)
    requires
        op.is_cmp(),
        prefix_ok(sa@, sb@),
        shape_product(sa@) == na,
        shape_product(sb@) == nb,
    ensures
        kind_const_ok(*op, sa@, sb@, left_below, r@),
        r@.wf(),
{
    let plan = make_plan(sa, na, sb, nb);
    let c = cmp_kind_of(op, left_below);
    let mut out: Vec<u8> = Vec::new();
    let mut j: usize = 0;
    while j < plan.n
        invariant
            j <= plan.n,
            out@.len() == j,
            forall|k: int| 0 <= k < j ==> #[trigger] out@[k] == c,
        decreases plan.n - j,
    {
        out.push(c);
        j = j + 1;
    }
    Value::Byte(Array { shape: plan.shape, data: out })
}

/// Promotes byte elements to their canonical number patterns.
pub fn promote_pub(e: &Vec<u8>) -> (r: Vec<u64>)
    ensures
        r@ == promote(e@),
{
    let n = e.len();
    let mut out: Vec<u64> = Vec::new();
    let mut i: usize = 0;
    while i < n
        invariant
            i <= n,
            n == e@.len(),
            out@.len() == i,
            forall|k: int| 0 <= k < i ==> #[trigger] out@[k] == byte_bits(e@[k]),
        decreases n - i,
    {
        out.push(byte_to_bits(e[i]));
        i = i + 1;
    }
    proof {
        assert(out@ =~= promote(e@));
    }
    out
}

/// The function comparison zip: function arrays compare directly,
/// element against element.
fn func_cmp_zip(op: &BinOp, sa: &Vec<usize>, ea: &Vec<Function>, sb: &Vec<usize>, eb: &Vec<
    Function>) -> (r: Value)
    requires
        op.is_cmp(),
        prefix_ok(sa@, sb@),
        shape_product(sa@) == ea@.len(),
        shape_product(sb@) == eb@.len(),
    ensures
        r@ matches ValV::Byte { shape, elems } && shape == bshape(sa@, sb@) && elems.len()
            == shape_product(bshape(sa@, sb@)) && (forall|j: int|
            0 <= j < elems.len() ==> #[trigger] elems[j] == cmp_func(
                *op,
                funcs_view(ea@)[bidx(sa@, sb@, j)],
                funcs_view(eb@)[bidx(sb@, sa@, j)],
            )),
        r@.wf(),
{
    let plan = make_plan(sa, ea.len(), sb, eb.len());
    proof {
        if sa@.len() == sb@.len() {
            assert(sa@ =~= sb@);
        }
        lemma_funcs_view(ea@);
        lemma_funcs_view(eb@);
    }
    let mut out: Vec<u8> = Vec::new();
    let mut j: usize = 0;
    while j < plan.n
        invariant
            j <= plan.n,
            plan.ok(sa@, sb@),
            op.is_cmp(),
            prefix_ok(sa@, sb@),
            shape_product(sa@) == ea@.len(),
            shape_product(sb@) == eb@.len(),
            sa@.len() == sb@.len() ==> sa@ == sb@,
            out@.len() == j,
            forall|k: int|
                0 <= k < j ==> #[trigger] out@[k] == cmp_func(
                    *op,
                    funcs_view(ea@)[bidx(sa@, sb@, k)],
                    funcs_view(eb@)[bidx(sb@, sa@, k)],
                ),
        decreases plan.n - j,
    {
        proof {
            if sa@.len() <= sb@.len() {
                lemma_bidx_in_range(sa@, sb@, j as int);
            } else {
                lemma_bidx_in_range(sb@, sa@, j as int);
            }
            vstd::arithmetic::div_mod::lemma_div_basics(j as int);
            lemma_funcs_view(ea@);
            lemma_funcs_view(eb@);
        }
        let o = crate::ord::cmp_funcs(&ea[j / plan.ta], &eb[j / plan.tb]);
        let eq = match o {
            core::cmp::Ordering::Equal => true,
            _ => false,
        };
        let lt = match o {
            core::cmp::Ordering::Less => true,
            _ => false,
        };
        let yes = match op {
            BinOp::Eq => eq,
            BinOp::Ne => !eq,
            BinOp::Lt => lt,
            BinOp::Le => lt || eq,
            BinOp::Gt => !lt && !eq,
            BinOp::Ge => !lt,
            _ => false,
        };
        out.push(
            if yes {
                1
            } else {
                0
            },
        );
        j = j + 1;
    }
    Value::Byte(Array { shape: plan.shape, data: out })
}

impl Value {
    /// A pervasive binary operation: broadcasts the two values by the
    /// shape-prefix rule, resolves the kinds with byte-to-number
    /// promotion, computes comparisons and byte arithmetic exactly,
    /// applies the given scalar double map `num_f` on the wide numeric
    /// paths, retries narrow byte failures in the wide domain when the
    /// context has a fill value, and reaches one level into boxed
    /// function elements. `bin_ok` states the result exactly; failures
    /// are exactly the cases `bin_fails` names, so success is owed
    /// whenever it does not hold.
    pub fn bin_op<F: Fn(u64, u64) -> u64>(self, op: BinOp, other: Value, env: &Env, num_f: &F) -> (r:
        Result<Value, EvalError>)
        requires
            self@.wf(),
            other@.wf(),
            forall|x: u64, y: u64| #[trigger] call_requires(*num_f, (x, y)),
        ensures
            match r {
                Ok(v) => v@.wf() && bin_ok(frel(*num_f), op, self@, other@, env.num_fill is Some, v@),
                Err(e) => bin_fails(op, self@, other@, env.num_fill is Some),
            },
        decreases vheight(self@) + vheight(other@), 1int,
    {
        let ghost fill = env.num_fill is Some;
        let ghost gs = self@;
        let ghost go = other@;
        match (self, other) {
            (Value::Func(a), Value::Func(b)) if op.is_cmp_op() => {
                proof {
                    lemma_funcs_view(a.data@);
                    lemma_funcs_view(b.data@);
                }
                if !prefixes_match_vec(&a.shape, &b.shape) {
                    return Err(crate::errors::fail2("shapes of the compared arrays", " do not match"));
                }
                Ok(func_cmp_zip(&op, &a.shape, &a.data, &b.shape, &b.data))
            },
            (Value::Func(a), other) => {
                proof {
                    lemma_funcs_view(a.data@);
                }
                let unboxable = a.shape.len() == 0 && a.data.len() == 1 && matches!(
                    &a.data[0].body,
                    crate::func::FuncBody::Const(_)
                );
                if unboxable {
                    proof {
                        assert(gs->Func_elems == funcs_view(a.data@));
                        lemma_funcs_vheight(gs->Func_elems);
                    }
                    let mut a = a;
                    let f = a.data.pop().unwrap();
                    match f.into_unboxed() {
                        Ok(v) => {
                            proof {
                                assert(f@ == gs->Func_elems[0]);
                                assert(gs->Func_elems[0].wf());
                                assert(v@ == gs->Func_elems[0]->Const_1);
                                assert(v@.wf());
                                assert(vheight(v@) == func_vheight(gs->Func_elems[0]));
                                assert(vheight(v@) < vheight(gs));
                            }
                            v.bin_op(op, other, env, num_f)
                        },
                        Err(_) => Err(crate::errors::fail2("operand", " is not a box")),
                    }
                } else {
                    boxed_zip(Value::Func(a), other, op, env, num_f)
                }
            },
            (this, Value::Func(b)) => {
                proof {
                    lemma_funcs_view(b.data@);
                }
                let unboxable = b.shape.len() == 0 && b.data.len() == 1 && matches!(
                    &b.data[0].body,
                    crate::func::FuncBody::Const(_)
                );
                if unboxable {
                    proof {
                        assert(go->Func_elems == funcs_view(b.data@));
                        lemma_funcs_vheight(go->Func_elems);
                    }
                    let mut b = b;
                    let f = b.data.pop().unwrap();
                    match f.into_unboxed() {
                        Ok(v) => {
                            proof {
                                assert(f@ == go->Func_elems[0]);
                                assert(go->Func_elems[0].wf());
                                assert(v@ == go->Func_elems[0]->Const_1);
                                assert(v@.wf());
                                assert(vheight(v@) == func_vheight(go->Func_elems[0]));
                                assert(vheight(v@) < vheight(go));
                            }
                            this.bin_op(op, v, env, num_f)
                        },
                        Err(_) => Err(crate::errors::fail2("operand", " is not a box")),
                    }
                } else {
                    boxed_zip(this, Value::Func(b), op, env, num_f)
                }
            },
            (Value::Num(a), Value::Num(b)) => {
                if !prefixes_match_vec(&a.shape, &b.shape) {
                    return Err(shape_error());
                }
                Ok(num_zip(&op, &a.shape, &a.data, &b.shape, &b.data, num_f))
            },
            (Value::Num(a), Value::Byte(b)) => {
                if !prefixes_match_vec(&a.shape, &b.shape) {
                    return Err(shape_error());
                }
                let pb = promote_pub(&b.data);
                Ok(num_zip(&op, &a.shape, &a.data, &b.shape, &pb, num_f))
            },
            (Value::Byte(a), Value::Num(b)) => {
                if !prefixes_match_vec(&a.shape, &b.shape) {
                    return Err(shape_error());
                }
                let pa = promote_pub(&a.data);
                Ok(num_zip(&op, &a.shape, &pa, &b.shape, &b.data, num_f))
            },
            (Value::Byte(a), Value::Byte(b)) => {
                if !prefixes_match_vec(&a.shape, &b.shape) {
                    return Err(shape_error());
                }
                if op.is_cmp_op() {
                    return Ok(byte_cmp_zip(&op, &a.shape, &a.data, &b.shape, &b.data));
                }
                match byte_try_zip(&op, &a.shape, &a.data, &b.shape, &b.data) {
                    Some(v) => Ok(v),
                    None => {
                        match env.num_fill() {
                            Some(_) => {
                                let pa = promote_pub(&a.data);
                                let pb = promote_pub(&b.data);
                                Ok(num_zip(&op, &a.shape, &pa, &b.shape, &pb, num_f))
                            },
                            None => Err(domain_error()),
                        }
                    },
                }
            },
            (Value::Char(a), Value::Char(b)) => {
                if !prefixes_match_vec(&a.shape, &b.shape) {
                    return Err(shape_error());
                }
                let minmax = match op {
                    BinOp::Min | BinOp::Max => true,
                    _ => false,
                };
                if op.is_cmp_op() || minmax {
                    Ok(char_zip(&op, &a.shape, &a.data, &b.shape, &b.data))
                } else {
                    Err(crate::errors::fail2("this operation", " is not defined on characters"))
                }
            },
            (Value::Char(a), b) => {
                if !op.is_cmp_op() {
                    return Err(
                        crate::errors::fail2(
                            "this operation",
                            " is not defined on characters and numbers",
                        ),
                    );
                }
                if !prefixes_match_vec(&a.shape, b.shape()) {
                    return Err(shape_error());
                }
                Ok(kind_const_zip(&op, &a.shape, a.data.len(), b.shape(), b.flat_len(), false))
            },
            (a, Value::Char(b)) => {
                if !op.is_cmp_op() {
                    return Err(
                        crate::errors::fail2(
                            "this operation",
                            " is not defined on numbers and characters",
                        ),
                    );
                }
                if !prefixes_match_vec(a.shape(), &b.shape) {
                    return Err(shape_error());
                }
                Ok(kind_const_zip(&op, a.shape(), a.flat_len(), &b.shape, b.data.len(), true))
            },
        }
    }
}

/// A shape-mismatch failure. This engine draws its boundary at shape
/// reconciliation: the fill value rescues narrow byte-domain failures,
/// but operands whose shapes disagree on the shared prefix always fail,
/// so the failure is not marked fill-recoverable.
fn shape_error() -> (r: EvalError)
    ensures
        !r.fill,
{
    EvalError {
        message: <String as vstd::string::StringExecFns>::from_str(
            "shapes of the operands do not match",
        ),
        fill: false,
    }
}

/// A narrow byte-domain failure; a fill value may rescue it on retry.
fn domain_error() -> (r: EvalError)
    ensures
        r.fill,
{
    EvalError {
        message: <String as vstd::string::StringExecFns>::from_str(
            "the result does not fit in byte storage",
        ),
        fill: true,
    }
}

/// Boxed elements of a well-formed value hold well-formed values.
pub proof fn lemma_boxed_elem_wf(v: ValV, i: int)
    requires
        v.wf(),
        0 <= i < v.flat_len(),
    ensures
        boxed_elem(v, i).boxed() is Some ==> boxed_elem(v, i).boxed()->Some_0.wf(),
        boxed_elem(v, i).boxed() is Some ==> boxed_elem(v, i).wf(),
{
    match v {
        ValV::Func { elems, .. } => {
            assert(elems[i].wf());
        },
        ValV::Num { elems, .. } => {
            assert(shape_product(Seq::<usize>::empty()) == 1);
        },
        ValV::Byte { elems, .. } => {
            assert(shape_product(Seq::<usize>::empty()) == 1);
        },
        ValV::Char { elems, .. } => {
            assert(shape_product(Seq::<usize>::empty()) == 1);
        },
    }
}

/// The boxed elementwise zip: coerces both sides to function arrays,
/// unboxes each broadcast pair, recurses, and reboxes the results.
fn boxed_zip<F: Fn(u64, u64) -> u64>(a: Value, b: Value, op: BinOp, env: &Env, num_f: &F) -> (r:
    Result<Value, EvalError>)
    requires
        a@.wf(),
        b@.wf(),
        a@ is Func || b@ is Func,
        forall|x: u64, y: u64| #[trigger] call_requires(*num_f, (x, y)),
    ensures
        match r {
            Ok(v) => v@.wf() && boxed_ok(frel(*num_f), op, a@, b@, env.num_fill is Some, v@),
            Err(e) => boxed_fails(op, a@, b@, env.num_fill is Some),
        },
    decreases vheight(a@) + vheight(b@), 0int,
{
    let ghost ga = a@;
    let ghost gb = b@;
    if !prefixes_match_vec(a.shape(), b.shape()) {
        return Err(shape_error());
    }
    let na = a.flat_len();
    let nb = b.flat_len();
    let af = a.coerce_as_function();
    let bf = b.coerce_as_function();
    proof {
        lemma_funcs_view(af.data@);
        lemma_funcs_view(bf.data@);
    }
    let plan = make_plan(&af.shape, na, &bf.shape, nb);
    proof {
        if ga.shape().len() == gb.shape().len() {
            assert(ga.shape() =~= gb.shape());
        }
        lemma_boxed_heights(ga, gb);
    }
    let mut out: Vec<Function> = Vec::new();
    let mut j: usize = 0;
    while j < plan.n
        invariant
            j <= plan.n,
            a@ == ga,
            b@ == gb,
            plan.ok(ga.shape(), gb.shape()),
            prefix_ok(ga.shape(), gb.shape()),
            ga.shape().len() == gb.shape().len() ==> ga.shape() == gb.shape(),
            af.shape@ == ga.shape(),
            bf.shape@ == gb.shape(),
            funcs_view(af.data@).len() == ga.flat_len(),
            funcs_view(bf.data@).len() == gb.flat_len(),
            af.data@.len() == ga.flat_len(),
            bf.data@.len() == gb.flat_len(),
            shape_product(ga.shape()) == ga.flat_len(),
            shape_product(gb.shape()) == gb.flat_len(),
            forall|i: int|
                0 <= i < ga.flat_len() ==> funcs_view(af.data@)[i] == boxed_elem(ga, i),
            forall|i: int|
                0 <= i < gb.flat_len() ==> funcs_view(bf.data@)[i] == boxed_elem(gb, i),
            ga.wf(),
            gb.wf(),
            ga is Func || gb is Func,
            forall|x: u64, y: u64| #[trigger] call_requires(*num_f, (x, y)),
            out@.len() == j,
            forall|k: int|
                0 <= k < j ==> (#[trigger] boxed_elem(ga, bidx(ga.shape(), gb.shape(), k))).boxed()
                    is Some && boxed_elem(gb, bidx(gb.shape(), ga.shape(), k)).boxed() is Some,
            forall|k: int|
                0 <= k < j ==> ((#[trigger] funcs_view(out@)[k]) matches FuncV::Const(sig, v) && sig
                    == (Signature { args: 0, outputs: 1 }) && v.wf() && bin_ok(
                    frel(*num_f),
                    op,
                    boxed_elem(ga, bidx(ga.shape(), gb.shape(), k)).boxed()->Some_0,
                    boxed_elem(gb, bidx(gb.shape(), ga.shape(), k)).boxed()->Some_0,
                    env.num_fill is Some,
                    *v,
                )),
        decreases plan.n - j,
    {
        proof {
            if ga.shape().len() <= gb.shape().len() {
                lemma_bidx_in_range(ga.shape(), gb.shape(), j as int);
            } else {
                lemma_bidx_in_range(gb.shape(), ga.shape(), j as int);
            }
            vstd::arithmetic::div_mod::lemma_div_basics(j as int);
            lemma_funcs_view(af.data@);
            lemma_funcs_view(bf.data@);
            lemma_boxed_heights(ga, gb);
        }
        let fa = &af.data[j / plan.ta];
        let fb = &bf.data[j / plan.tb];
        proof {
            assert(funcs_view(af.data@)[(j as int) / (plan.ta as int)] == boxed_elem(
                ga,
                bidx(ga.shape(), gb.shape(), j as int),
            ));
            assert(funcs_view(bf.data@)[(j as int) / (plan.tb as int)] == boxed_elem(
                gb,
                bidx(gb.shape(), ga.shape(), j as int),
            ));
        }
        proof {
            lemma_boxed_elem_wf(ga, bidx(ga.shape(), gb.shape(), j as int));
            lemma_boxed_elem_wf(gb, bidx(gb.shape(), ga.shape(), j as int));
        }
        let va = match fa.as_boxed() {
            Some(v) => v.dup(),
            None => {
                proof {
                    assert(!(boxed_elem(ga, bidx(ga.shape(), gb.shape(), j as int)).boxed()
                        is Some));
                }
                return Err(crate::errors::fail2("First argument", " is not a box"));
            },
        };
        let vb = match fb.as_boxed() {
            Some(v) => v.dup(),
            None => {
                proof {
                    assert(!(boxed_elem(gb, bidx(gb.shape(), ga.shape(), j as int)).boxed()
                        is Some));
                }
                return Err(crate::errors::fail2("Second argument", " is not a box"));
            },
        };
        proof {
            assert(va@ == boxed_elem(ga, bidx(ga.shape(), gb.shape(), j as int)).boxed()->Some_0);
            assert(vb@ == boxed_elem(gb, bidx(gb.shape(), ga.shape(), j as int)).boxed()->Some_0);
            assert(va@.wf());
            assert(vb@.wf());
            assert(vheight(va@) + vheight(vb@) < vheight(ga) + vheight(gb));
            assert(a@ == ga && b@ == gb);
            assert(vheight(va@) + vheight(vb@) < vheight(a@) + vheight(b@));
        }
        let ghost gout = out@;
        match va.bin_op(op, vb, env, num_f) {
            Ok(res) => {
                let ghost gres = res@;
                out.push(Function::constant(res));
                proof {
                    lemma_funcs_view(gout);
                    lemma_funcs_view(out@);
                    assert(out@ =~= gout.push(out@.last()));
                    assert(funcs_view(out@)[j as int] == func_view(out@[j as int]));
                    assert forall|k: int| 0 <= k < j implies #[trigger] funcs_view(out@)[k]
                        == funcs_view(gout)[k] by {
                        assert(out@[k] == gout[k]);
                    }
                }
            },
            Err(e) => {
                return Err(e);
            },
        }
        j = j + 1;
    }
    proof {
        lemma_funcs_view(out@);
        assert forall|j: int| 0 <= j < plan.n implies 0 <= #[trigger] bidx(
            ga.shape(),
            gb.shape(),
            j,
        ) < ga.flat_len() && 0 <= bidx(gb.shape(), ga.shape(), j) < gb.flat_len() by {
            if ga.shape().len() <= gb.shape().len() {
                lemma_bidx_in_range(ga.shape(), gb.shape(), j);
            } else {
                lemma_bidx_in_range(gb.shape(), ga.shape(), j);
            }
            vstd::arithmetic::div_mod::lemma_div_basics(j);
        }
    }
    Ok(Value::Func(Array { shape: plan.shape, data: out }))
}

/// Promotion commutativity: combining a byte array with a number array
/// allows exactly the results of first promoting the byte side to its
/// numeric content, and fails in exactly the same cases.
pub proof fn lemma_promotion_commutes(
    rel: spec_fn(u64, u64, u64) -> bool,
    op: BinOp,
    sa: Seq<usize>,
    ea: Seq<u8>,
    sb: Seq<usize>,
    eb: Seq<u64>,
    fill: bool,
    out: ValV,
)
    ensures
        bin_ok(rel, op, ValV::Byte { shape: sa, elems: ea }, ValV::Num { shape: sb, elems: eb },
            fill, out) == bin_ok(rel, op, ValV::Num { shape: sa, elems: promote(ea) }, ValV::Num {
            shape: sb,
            elems: eb,
        }, fill, out),
        bin_fails(op, ValV::Byte { shape: sa, elems: ea }, ValV::Num { shape: sb, elems: eb }, fill)
            == bin_fails(op, ValV::Num { shape: sa, elems: promote(ea) }, ValV::Num {
            shape: sb,
            elems: eb,
        }, fill),
{
}

/// Fill retry: byte arithmetic that leaves the byte domain somewhere
/// succeeds with exactly the wide numeric results when a fill value is
/// configured, and is the narrow-domain failure when none is.
pub proof fn lemma_fill_retry(
    rel: spec_fn(u64, u64, u64) -> bool,
    op: BinOp,
    sa: Seq<usize>,
    ea: Seq<u8>,
    sb: Seq<usize>,
    eb: Seq<u8>,
    out: ValV,
)
    requires
        !op.is_cmp(),
        !byte_all_ok(op, sa, ea, sb, eb),
    ensures
        bin_ok(rel, op, ValV::Byte { shape: sa, elems: ea }, ValV::Byte { shape: sb, elems: eb },
            true, out) == bin_ok(rel, op, ValV::Num { shape: sa, elems: promote(ea) }, ValV::Num {
            shape: sb,
            elems: promote(eb),
        }, true, out),
        prefix_ok(sa, sb) ==> !bin_fails(op, ValV::Byte { shape: sa, elems: ea }, ValV::Byte {
            shape: sb,
            elems: eb,
        }, true),
        bin_fails(op, ValV::Byte { shape: sa, elems: ea }, ValV::Byte { shape: sb, elems: eb },
            false),
{
}

/// The unary pervasive operations.
#[derive(PartialEq, Eq, Structural, Clone, Copy)]
pub enum UnOp {
    Neg,
    Not,
    Abs,
    Sign,
    Sqrt,
    Sin,
    Cos,
    Tan,
    Asin,
    Acos,
    Floor,
    Ceil,
    Round,
}

impl UnOp {
    /// Operations whose result on a byte stays a byte: the sign, and the
    /// roundings, which leave an integer in 0..=255 unchanged.
    pub open spec fn keeps_byte(self) -> bool {
        self == UnOp::Sign || self == UnOp::Floor || self == UnOp::Ceil || self == UnOp::Round
    }
}

/// What a byte-keeping operation does to a byte: the roundings are the
/// identity on integers, the sign of a byte is zero or one.
pub open spec fn byte_un(op: UnOp, b: u8) -> u8 {
    if op == UnOp::Sign {
        if b > 0 {
            1u8
        } else {
            0u8
        }
    } else {
        b
    }
}

/// The result relation of a unary pervasive operation: numbers map
/// through the scalar function, bytes stay bytes for the byte-keeping
/// operations and are promoted to the wide path otherwise, and function
/// arrays apply the operation inside each boxed element.
pub open spec fn un_ok(
    rel: spec_fn(u64, u64) -> bool,
    op: UnOp,
    v: ValV,
    out: ValV,
) -> bool
    decreases vheight(v),
    via un_ok_dec
{
    match v {
        ValV::Num { shape, elems } => out matches ValV::Num { shape: s2, elems: e2 } && s2 == shape
            && e2.len() == elems.len() && (forall|i: int|
            0 <= i < elems.len() ==> rel(elems[i], #[trigger] e2[i])),
        ValV::Byte { shape, elems } => {
            if op.keeps_byte() {
                out matches ValV::Byte { shape: s2, elems: e2 } && s2 == shape && e2.len()
                    == elems.len() && (forall|i: int|
                    0 <= i < elems.len() ==> #[trigger] e2[i] == byte_un(op, elems[i]))
            } else {
                out matches ValV::Num { shape: s2, elems: e2 } && s2 == shape && e2.len()
                    == elems.len() && (forall|i: int|
                    0 <= i < elems.len() ==> rel(byte_bits(elems[i]), #[trigger] e2[i]))
            }
        },
        ValV::Char { .. } => false,
        ValV::Func { shape, elems } => out matches ValV::Func { shape: s2, elems: e2 } && s2
            == shape && e2.len() == elems.len() && (forall|i: int|
            0 <= i < elems.len() ==> ((#[trigger] elems[i]).boxed() is Some && (e2[i]
                matches FuncV::Const(sig, w) && sig == (Signature { args: 0, outputs: 1 })
                && un_ok(rel, op, elems[i].boxed()->Some_0, *w)))),
    }
}

#[via_fn]
proof fn un_ok_dec(rel: spec_fn(u64, u64) -> bool, op: UnOp, v: ValV, out: ValV) {
    if v is Func {
        lemma_funcs_vheight(v->Func_elems);
    }
}

/// When a unary pervasive operation fails: on characters, and on a
/// function element that is not a box or whose boxed value fails.
pub open spec fn un_fails(op: UnOp, v: ValV) -> bool
    decreases vheight(v),
    via un_fails_dec
{
    match v {
        ValV::Char { .. } => true,
        ValV::Func { elems, .. } => exists|i: int|
            0 <= i < elems.len() && (!((#[trigger] elems[i]).boxed() is Some) || un_fails(
                op,
                elems[i].boxed()->Some_0,
            )),
        _ => false,
    }
}

#[via_fn]
proof fn un_fails_dec(op: UnOp, v: ValV) {
    if v is Func {
        lemma_funcs_vheight(v->Func_elems);
    }
}

/// The input-output relation of a unary scalar double map.
pub open spec fn frel1<F: Fn(u64) -> u64>(f: F) -> spec_fn(u64, u64) -> bool {
    |x: u64, z: u64| call_ensures(f, (x,), z)
}

/// Relies on rayon's parallel mutable iteration: applies the function to
/// every slot independently, exactly as the sequential map would.
#[verifier::external_body]
fn par_map_mut<F: Fn(u64) -> u64 + Sync>(v: &mut Vec<u64>, f: &F)
    requires
        forall|x: u64| #[trigger] call_requires(*f, (x,)),
    ensures
        final(v)@.len() == old(v)@.len(),
        forall|i: int|
            0 <= i < old(v)@.len() ==> call_ensures(*f, (old(v)@[i],), #[trigger] final(v)@[i]),
{
    v.par_iter_mut().with_min_len(1024).for_each(|x| *x = f(*x));
}

pub const PAR_MIN: usize = 4096;

/// Applies the scalar double map to every pattern: in parallel across
/// the buffer above a size threshold, sequentially below it. The
/// parallelism changes wall-clock behaviour only, never the result
/// relation.
fn map_num<F: Fn(u64) -> u64 + Sync>(mut v: Vec<u64>, f: &F) -> (r: Vec<u64>)
    requires
        forall|x: u64| #[trigger] call_requires(*f, (x,)),
    ensures
        r@.len() == v@.len(),
        forall|i: int| 0 <= i < v@.len() ==> call_ensures(*f, (v@[i],), #[trigger] r@[i]),
{
    if v.len() >= PAR_MIN {
        par_map_mut(&mut v, f);
        v
    } else {
        let ghost gv = v@;
        let n = v.len();
        let mut out: Vec<u64> = Vec::new();
        let mut i: usize = 0;
        while i < n
            invariant
                i <= n,
                v@ == gv,
                n == gv.len(),
                out@.len() == i,
                forall|x: u64| #[trigger] call_requires(*f, (x,)),
                forall|k: int| 0 <= k < i ==> call_ensures(*f, (gv[k],), #[trigger] out@[k]),
            decreases n - i,
        {
            out.push(f(v[i]));
            i = i + 1;
        }
        out
    }
}

impl Value {
    /// A unary pervasive operation: numbers map through the given scalar
    /// double function (in parallel over large buffers), bytes stay in
    /// byte storage for the sign and the roundings and take the wide
    /// numeric path otherwise, characters fail with a type error naming
    /// "character", and function arrays apply the operation one level
    /// deep inside boxed elements, failing with a type error naming
    /// "function" on an element that is not a box.
    pub fn un_op<F: Fn(u64) -> u64 + Sync>(&self, op: UnOp, num_f: &F) -> (r: Result<
        Value,
        EvalError,
    >)
        requires
            self@.wf(),
            forall|x: u64| #[trigger] call_requires(*num_f, (x,)),
        ensures
            match r {
                Ok(v) => v@.wf() && un_ok(frel1(*num_f), op, self@, v@) && !un_fails(op, self@),
                Err(e) => un_fails(op, self@),
            },
        decreases vheight(self@),
    {
        let ghost gs = self@;
        match self {
            Value::Num(a) => {
                let data = map_num(crate::array::dup_vec(&a.data), num_f);
                Ok(Value::Num(Array { shape: crate::array::dup_vec(&a.shape), data }))
            },
            Value::Byte(a) => {
                let keeps = match op {
                    UnOp::Sign | UnOp::Floor | UnOp::Ceil | UnOp::Round => true,
                    _ => false,
                };
                if keeps {
                    let n = a.data.len();
                    let mut out: Vec<u8> = Vec::new();
                    let mut i: usize = 0;
                    while i < n
                        invariant
                            i <= n,
                            n == a.data@.len(),
                            out@.len() == i,
                            forall|k: int|
                                0 <= k < i ==> #[trigger] out@[k] == byte_un(op, a.data@[k]),
                        decreases n - i,
                    {
                        let b = a.data[i];
                        let ob = match op {
                            UnOp::Sign => if b > 0 {
                                1
                            } else {
                                0
                            },
                            _ => b,
                        };
                        out.push(ob);
                        i = i + 1;
                    }
                    Ok(Value::Byte(Array { shape: crate::array::dup_vec(&a.shape), data: out }))
                } else {
                    let pa = promote_pub(&a.data);
                    let data = map_num(pa, num_f);
                    Ok(Value::Num(Array { shape: crate::array::dup_vec(&a.shape), data }))
                }
            },
            Value::Char(_) => Err(crate::errors::fail2("Cannot apply this operation to", " character")),
            Value::Func(a) => {
                proof {
                    lemma_funcs_view(a.data@);
                    lemma_funcs_vheight(gs->Func_elems);
                    gs.lemma_wf_func_elems();
                }
                let n = a.data.len();
                let mut out: Vec<Function> = Vec::new();
                let mut i: usize = 0;
                while i < n
                    invariant
                        i <= n,
                        n == a.data@.len(),
                        gs == (ValV::Func { shape: a.shape@, elems: funcs_view(a.data@) }),
                        self@ == gs,
                        gs.wf(),
                        funcs_view(a.data@).len() == n,
                        forall|k: int|
                            0 <= k < n ==> funcs_view(a.data@)[k] == #[trigger] func_view(
                                a.data@[k],
                            ),
                        forall|x: u64| #[trigger] call_requires(*num_f, (x,)),
                        out@.len() == i,
                        forall|k: int|
                            0 <= k < i ==> (#[trigger] funcs_view(a.data@)[k]).boxed() is Some
                                && !un_fails(op, funcs_view(a.data@)[k].boxed()->Some_0),
                        forall|k: int|
                            0 <= k < i ==> ((#[trigger] funcs_view(out@)[k])
                                matches FuncV::Const(sig, w) && sig == (Signature {
                                args: 0,
                                outputs: 1,
                            }) && w.wf() && un_ok(
                                frel1(*num_f),
                                op,
                                funcs_view(a.data@)[k].boxed()->Some_0,
                                *w,
                            )),
                    decreases n - i,
                {
                    proof {
                        lemma_funcs_view(a.data@);
                        lemma_funcs_vheight(gs->Func_elems);
                    }
                    let va = match a.data[i].as_boxed() {
                        Some(v) => v.dup(),
                        None => {
                            proof {
                                assert(!(funcs_view(a.data@)[i as int].boxed() is Some));
                            }
                            return Err(
                                crate::errors::fail2("Cannot apply this operation to", " function"),
                            );
                        },
                    };
                    proof {
                        assert(va@ == funcs_view(a.data@)[i as int].boxed()->Some_0);
                        assert(funcs_view(a.data@)[i as int].wf());
                        assert(va@.wf());
                        assert(vheight(va@) == func_vheight(gs->Func_elems[i as int]));
                        assert(vheight(va@) < vheight(gs));
                    }
                    let ghost gout = out@;
                    match (&va).un_op(op, num_f) {
                        Ok(res) => {
                            out.push(Function::constant(res));
                            proof {
                                lemma_funcs_view(gout);
                                lemma_funcs_view(out@);
                                assert forall|k: int| 0 <= k < i implies #[trigger] funcs_view(
                                    out@,
                                )[k] == funcs_view(gout)[k] by {
                                    assert(out@[k] == gout[k]);
                                }
                            }
                        },
                        Err(_) => {
                            return Err(
                                crate::errors::fail2("Cannot apply this operation to", " function"),
                            );
                        },
                    }
                    i = i + 1;
                }
                proof {
                    lemma_funcs_view(out@);
                }
                Ok(Value::Func(Array { shape: crate::array::dup_vec(&a.shape), data: out }))
            },
        }
    }
}

} // verus!
