//! Equality, total order and hashing for values. A value is flattened to
//! an ordering key: its kind's rank, its shape, and its elements, with
//! bytes promoted to their canonical number patterns and numbers mapped
//! through the IEEE total-order key. Two values are equal exactly when
//! their keys are equal - so a byte array equals the number array of the
//! same numeric content - and the order is the lexicographic order of
//! keys, which makes it a total order that ranks numbers below
//! characters below functions.

use crate::bits::{byte_bits, byte_to_bits, norm_key, norm_key_of};
use crate::func::{func_view, FuncBody, FuncV, Function};
use crate::value::{funcs_view, lemma_funcs_view, ValV, Value};
use core::cmp::Ordering;
use vstd::prelude::*;

verus! {

/// The ordering key of one function element.
pub open spec fn key_of_func(f: FuncV) -> Seq<u64>
    decreases f, 0int,
{
    match f {
        FuncV::Code(sig, id) => seq![0u64, sig.args as u64, sig.outputs as u64, id],
        FuncV::Const(sig, v) => seq![
            1u64,
            sig.args as u64,
            sig.outputs as u64,
            key_of_val(*v).len() as u64,
        ] + key_of_val(*v),
    }
}

/// The concatenated keys of a sequence of function elements.
pub open spec fn keys_of_funcs(s: Seq<FuncV>) -> Seq<u64>
    decreases s, 0int,
{
    if s.len() == 0 {
        Seq::empty()
    } else {
        key_of_func(s[0]) + keys_of_funcs(s.drop_first())
    }
}

/// The element part of a value's key: numbers through the zero-collapsed
/// total-order key (so the two zero patterns are the same number), bytes
/// first promoted to their canonical patterns, characters by code point,
/// functions recursively.
pub open spec fn key_of_elems(v: ValV) -> Seq<u64>
    decreases v, 0int,
{
    match v {
        ValV::Num { elems, .. } => Seq::new(elems.len(), |i: int| norm_key(elems[i])),
        ValV::Byte { elems, .. } => Seq::new(elems.len(), |i: int| norm_key(byte_bits(elems[i]))),
        ValV::Char { elems, .. } => Seq::new(elems.len(), |i: int| elems[i] as u64),
        ValV::Func { elems, .. } => keys_of_funcs(elems),
    }
}

/// The ordering key of a value: kind rank, then rank and shape, then the
/// elements.
pub open spec fn key_of_val(v: ValV) -> Seq<u64>
    decreases v, 1int,
{
    seq![v.kind_rank() as u64, v.shape().len() as u64] + Seq::new(
        v.shape().len(),
        |i: int| v.shape()[i] as u64,
    ) + key_of_elems(v)
}

/// Lexicographic comparison of two keys; a strict prefix comes first.
pub open spec fn lex_cmp(a: Seq<u64>, b: Seq<u64>) -> int
    decreases a.len(),
{
    if a.len() == 0 && b.len() == 0 {
        0
    } else if a.len() == 0 {
        -1
    } else if b.len() == 0 {
        1
    } else if a[0] < b[0] {
        -1
    } else if a[0] > b[0] {
        1
    } else {
        lex_cmp(a.drop_first(), b.drop_first())
    }
}

/// How two values compare: by the lexicographic order of their keys.
pub open spec fn val_cmp(a: ValV, b: ValV) -> int {
    lex_cmp(key_of_val(a), key_of_val(b))
}

/// Whether two values are equal: their keys coincide, so byte storage
/// and number storage of the same numeric content are the same value.
pub open spec fn val_eq(a: ValV, b: ValV) -> bool {
    key_of_val(a) == key_of_val(b)
}

/// Comparing a key with itself yields equality.
pub proof fn lemma_lex_refl(a: Seq<u64>)
    ensures
        lex_cmp(a, a) == 0,
    decreases a.len(),
{
    if a.len() > 0 {
        lemma_lex_refl(a.drop_first());
    }
}

/// Swapping the operands negates the comparison.
pub proof fn lemma_lex_antisym(a: Seq<u64>, b: Seq<u64>)
    ensures
        lex_cmp(a, b) == -lex_cmp(b, a),
    decreases a.len(),
{
    if a.len() > 0 && b.len() > 0 {
        lemma_lex_antisym(a.drop_first(), b.drop_first());
    }
}

/// Keys that compare equal are equal.
pub proof fn lemma_lex_eq(a: Seq<u64>, b: Seq<u64>)
    requires
        lex_cmp(a, b) == 0,
    ensures
        a == b,
    decreases a.len(),
{
    if a.len() == 0 {
        assert(b.len() == 0);
        assert(a =~= b);
    } else {
        assert(b.len() > 0);
        lemma_lex_eq(a.drop_first(), b.drop_first());
        assert forall|i: int| 0 <= i < a.len() implies a[i] == b[i] by {
            if i > 0 {
                assert(a[i] == a.drop_first()[i - 1]);
                assert(b[i] == b.drop_first()[i - 1]);
            }
        }
        assert(a =~= b);
    }
}

/// The comparison is transitive, and strict on one side stays strict.
pub proof fn lemma_lex_trans(a: Seq<u64>, b: Seq<u64>, c: Seq<u64>)
    requires
        lex_cmp(a, b) <= 0,
        lex_cmp(b, c) <= 0,
    ensures
        lex_cmp(a, c) <= 0,
        lex_cmp(a, b) < 0 || lex_cmp(b, c) < 0 ==> lex_cmp(a, c) < 0,
    decreases a.len() + b.len() + c.len(),
{
    if a.len() == 0 {
        if c.len() > 0 && b.len() > 0 {
        }
    } else if b.len() > 0 && c.len() > 0 {
        if a[0] == b[0] && b[0] == c[0] {
            lemma_lex_trans(a.drop_first(), b.drop_first(), c.drop_first());
        }
    }
}

/// The order on values is a strict weak order - comparing a value with
/// itself gives equality, swapping the sides negates the outcome, equal
/// comparison means equal keys, and the order is transitive - and it
/// respects the kind ranking: numbers and bytes below characters below
/// functions.
pub proof fn lemma_value_total_order(a: ValV, b: ValV, c: ValV)
    ensures
        val_cmp(a, a) == 0,
        val_cmp(a, b) == -val_cmp(b, a),
        val_cmp(a, b) == 0 ==> val_eq(a, b),
        val_cmp(a, b) <= 0 && val_cmp(b, c) <= 0 ==> val_cmp(a, c) <= 0,
        val_cmp(a, b) < 0 && val_cmp(b, c) <= 0 ==> val_cmp(a, c) < 0,
        a.kind_rank() < b.kind_rank() ==> val_cmp(a, b) < 0,
        val_eq(a, a),
{
    lemma_lex_refl(key_of_val(a));
    lemma_lex_antisym(key_of_val(a), key_of_val(b));
    if lex_cmp(key_of_val(a), key_of_val(b)) == 0 {
        lemma_lex_eq(key_of_val(a), key_of_val(b));
    }
    if val_cmp(a, b) <= 0 && val_cmp(b, c) <= 0 {
        lemma_lex_trans(key_of_val(a), key_of_val(b), key_of_val(c));
    }
    if a.kind_rank() < b.kind_rank() {
        assert(key_of_val(a)[0] == a.kind_rank() as u64);
        assert(key_of_val(b)[0] == b.kind_rank() as u64);
    }
}

/// Byte storage is only storage: a byte array and the number array of
/// its promoted content have the same key, so they are equal, compare
/// equally against everything, and hash identically.
pub proof fn lemma_byte_num_equiv(shape: Seq<usize>, bytes: Seq<u8>)
    ensures
        val_eq(
            ValV::Byte { shape, elems: bytes },
            ValV::Num { shape, elems: Seq::new(bytes.len(), |i: int| byte_bits(bytes[i])) },
        ),
{
    let bv = ValV::Byte { shape, elems: bytes };
    let nv = ValV::Num {
        shape,
        elems: Seq::new(bytes.len(), |i: int| byte_bits(bytes[i])),
    };
    assert(key_of_elems(bv) =~= key_of_elems(nv));
    assert(key_of_val(bv) =~= key_of_val(nv));
}

/// One step of the 64-bit FNV-1a hash.
pub open spec fn fnv_step(h: u64, x: u64) -> u64 {
    ((((h ^ x) as int) * 0x100000001b3) % 0x10000000000000000) as u64
}

/// The 64-bit FNV-1a hash of a key.
pub open spec fn fnv_hash(s: Seq<u64>, h: u64) -> u64
    decreases s.len(),
{
    if s.len() == 0 {
        h
    } else {
        fnv_hash(s.drop_first(), fnv_step(h, s[0]))
    }
}

pub const FNV_SEED: u64 = 0xcbf29ce484222325;

impl Value {
    /// The ordering key, computed; see `key_of_val`.
    pub fn ord_key(&self) -> (r: Vec<u64>)
        ensures
            r@ == key_of_val(self@),
        decreases *self,
    {
        let mut out: Vec<u64> = Vec::new();
        match self {
            Value::Num(_) => out.push(0),
            Value::Byte(_) => out.push(0),
            Value::Char(_) => out.push(1),
            Value::Func(_) => out.push(2),
        }
        let shape = self.shape();
        let rank = shape.len();
        out.push(rank as u64);
        let mut i: usize = 0;
        while i < rank
            invariant
                i <= rank,
                rank == self@.shape().len(),
                shape@ == self@.shape(),
                out@ == seq![self@.kind_rank() as u64, rank as u64] + Seq::new(
                    i as nat,
                    |k: int| self@.shape()[k] as u64,
                ),
            decreases rank - i,
        {
            out.push(shape[i] as u64);
            proof {
                assert(out@ =~= seq![self@.kind_rank() as u64, rank as u64] + Seq::new(
                    (i + 1) as nat,
                    |k: int| self@.shape()[k] as u64,
                ));
            }
            i = i + 1;
        }
        proof {
            assert(Seq::new(rank as nat, |k: int| self@.shape()[k] as u64) =~= Seq::new(
                self@.shape().len(),
                |k: int| self@.shape()[k] as u64,
            ));
        }
        let ghost head = seq![self@.kind_rank() as u64, self@.shape().len() as u64] + Seq::new(
            self@.shape().len(),
            |k: int| self@.shape()[k] as u64,
        );
        match self {
            Value::Num(a) => {
                let n = a.data.len();
                let mut j: usize = 0;
                while j < n
                    invariant
                        j <= n,
                        n == a.data@.len(),
                        *self == Value::Num(*a),
                        out@ == head + Seq::new(j as nat, |k: int| norm_key(a.data@[k])),
                    decreases n - j,
                {
                    out.push(norm_key_of(a.data[j]));
                    proof {
                        assert(out@ =~= head + Seq::new(
                            (j + 1) as nat,
                            |k: int| norm_key(a.data@[k]),
                        ));
                    }
                    j = j + 1;
                }
                proof {
                    assert(Seq::new(n as nat, |k: int| norm_key(a.data@[k])) =~= key_of_elems(
                        self@,
                    ));
                    assert(out@ =~= key_of_val(self@));
                }
            },
            Value::Byte(a) => {
                let n = a.data.len();
                let mut j: usize = 0;
                while j < n
                    invariant
                        j <= n,
                        n == a.data@.len(),
                        *self == Value::Byte(*a),
                        out@ == head + Seq::new(
                            j as nat,
                            |k: int| norm_key(byte_bits(a.data@[k])),
                        ),
                    decreases n - j,
                {
                    out.push(norm_key_of(byte_to_bits(a.data[j])));
                    proof {
                        assert(out@ =~= head + Seq::new(
                            (j + 1) as nat,
                            |k: int| norm_key(byte_bits(a.data@[k])),
                        ));
                    }
                    j = j + 1;
                }
                proof {
                    assert(Seq::new(n as nat, |k: int| norm_key(byte_bits(a.data@[k])))
                        =~= key_of_elems(self@));
                    assert(out@ =~= key_of_val(self@));
                }
            },
            Value::Char(a) => {
                let n = a.data.len();
                let mut j: usize = 0;
                while j < n
                    invariant
                        j <= n,
                        n == a.data@.len(),
                        *self == Value::Char(*a),
                        out@ == head + Seq::new(j as nat, |k: int| a.data@[k] as u64),
                    decreases n - j,
                {
                    out.push(a.data[j] as u64);
                    proof {
                        assert(out@ =~= head + Seq::new(
                            (j + 1) as nat,
                            |k: int| a.data@[k] as u64,
                        ));
                    }
                    j = j + 1;
                }
                proof {
                    assert(Seq::new(n as nat, |k: int| a.data@[k] as u64) =~= key_of_elems(self@));
                    assert(out@ =~= key_of_val(self@));
                }
            },
            Value::Func(a) => {
                let n = a.data.len();
                let mut j: usize = 0;
                proof {
                    lemma_funcs_view(a.data@);
                }
                while j < n
                    invariant
                        j <= n,
                        n == a.data@.len(),
                        *self == Value::Func(*a),
                        out@ == head + keys_of_funcs(
                            funcs_view(a.data@).subrange(0, j as int),
                        ),
                    decreases n - j,
                {
                    proof {
                        broadcast use vstd::std_specs::vec::group_vec_axioms;

                        lemma_funcs_view(a.data@);
                        assert(decreases_to!(*self => self->Func_0));
                        assert(decreases_to!(self->Func_0 => self->Func_0.data));
                        assert(decreases_to!(self->Func_0.data => a.data@));
                        assert(decreases_to!(a.data@ => a.data@[j as int]));
                        assert(decreases_to!(*self => a.data@[j as int]));
                    }
                    func_key_into(&a.data[j], &mut out);
                    proof {
                        lemma_funcs_view(a.data@);
                        lemma_keys_of_funcs_snoc(funcs_view(a.data@), j as int);
                    }
                    j = j + 1;
                }
                proof {
                    lemma_funcs_view(a.data@);
                    assert(funcs_view(a.data@).subrange(0, n as int) =~= funcs_view(a.data@));
                    assert(out@ =~= key_of_val(self@));
                }
            },
        }
        out
    }

    /// How this value compares with another in the total order.
    pub fn total_cmp(&self, other: &Value) -> (r: Ordering)
        ensures
            r == Ordering::Less <==> val_cmp(self@, other@) < 0,
            r == Ordering::Equal <==> val_cmp(self@, other@) == 0,
            r == Ordering::Greater <==> val_cmp(self@, other@) > 0,
    {
        let ka = self.ord_key();
        let kb = other.ord_key();
        lex_cmp_exec(&ka, &kb)
    }

    /// Whether this value equals another: same kind rank, shape and
    /// numeric/character/function content, with bytes counting as the
    /// numbers they store.
    pub fn eq_val(&self, other: &Value) -> (r: bool)
        ensures
            r == val_eq(self@, other@),
    {
        let ka = self.ord_key();
        let kb = other.ord_key();
        let r = vecs_equal(&ka, &kb);
        proof {
            if lex_cmp(ka@, kb@) == 0 {
                lemma_lex_eq(ka@, kb@);
            }
            if ka@ == kb@ {
                lemma_lex_refl(ka@);
            }
        }
        r
    }

    /// The value's hash: FNV-1a over the ordering key, so equal values -
    /// byte against number storage included - hash identically.
    pub fn hash64(&self) -> (r: u64)
        ensures
            r == fnv_hash(key_of_val(self@), FNV_SEED),
    {
        let k = self.ord_key();
        let n = k.len();
        proof {
            assert(k@.subrange(0, n as int) =~= k@);
        }
        let mut h: u64 = FNV_SEED;
        let mut i: usize = 0;
        while i < n
            invariant
                i <= n,
                n == k@.len(),
                k@ == key_of_val(self@),
                fnv_hash(k@.subrange(i as int, n as int), h) == fnv_hash(k@, FNV_SEED),
            decreases n - i,
        {
            proof {
                assert(k@.subrange(i as int, n as int).drop_first() =~= k@.subrange(
                    i + 1,
                    n as int,
                ));
            }
            h = (h ^ k[i]).wrapping_mul(0x100000001b3u64);
            i = i + 1;
        }
        proof {
            assert(k@.subrange(n as int, n as int) =~= Seq::<u64>::empty());
        }
        h
    }
}

/// How two function values compare: by the lexicographic order of their
/// ordering keys.
pub fn cmp_funcs(f1: &Function, f2: &Function) -> (r: Ordering)
    ensures
        r == Ordering::Less <==> lex_cmp(key_of_func(f1@), key_of_func(f2@)) < 0,
        r == Ordering::Equal <==> key_of_func(f1@) == key_of_func(f2@),
        r == Ordering::Greater <==> lex_cmp(key_of_func(f1@), key_of_func(f2@)) > 0,
{
    let mut k1: Vec<u64> = Vec::new();
    let mut k2: Vec<u64> = Vec::new();
    func_key_into(f1, &mut k1);
    func_key_into(f2, &mut k2);
    proof {
        assert(k1@ =~= key_of_func(f1@));
        assert(k2@ =~= key_of_func(f2@));
        if lex_cmp(k1@, k2@) == 0 {
            lemma_lex_eq(k1@, k2@);
        }
        if k1@ == k2@ {
            lemma_lex_refl(k1@);
        }
    }
    lex_cmp_exec(&k1, &k2)
}

impl PartialEq for Value {
    /// Values are equal when their ordering keys coincide; byte storage
    /// equals number storage of the same numeric content.
    fn eq(&self, other: &Value) -> (r: bool) {
        self.eq_val(other)
    }
}

impl vstd::std_specs::cmp::PartialEqSpecImpl for Value {
    open spec fn obeys_eq_spec() -> bool {
        true
    }

    open spec fn eq_spec(&self, other: &Value) -> bool {
        val_eq(self@, other@)
    }
}

impl PartialOrd for Value {
    /// The total order on values: by ordering key, so numbers and bytes
    /// rank below characters below functions.
    fn partial_cmp(&self, other: &Value) -> (r: Option<Ordering>) {
        Some(self.total_cmp(other))
    }
}

impl vstd::std_specs::cmp::PartialOrdSpecImpl for Value {
    open spec fn obeys_partial_cmp_spec() -> bool {
        true
    }

    open spec fn partial_cmp_spec(&self, other: &Value) -> Option<Ordering> {
        if val_cmp(self@, other@) < 0 {
            Some(Ordering::Less)
        } else if val_cmp(self@, other@) == 0 {
            Some(Ordering::Equal)
        } else {
            Some(Ordering::Greater)
        }
    }
}

/// Appending one more element's key extends the concatenation.
proof fn lemma_keys_of_funcs_snoc(s: Seq<FuncV>, j: int)
    requires
        0 <= j < s.len(),
    ensures
        keys_of_funcs(s.subrange(0, j + 1)) == keys_of_funcs(s.subrange(0, j)) + key_of_func(s[j]),
    decreases j,
{
    if j == 0 {
        assert(s.subrange(0, 1).drop_first() =~= Seq::<FuncV>::empty());
        assert(s.subrange(0, 1)[0] == s[0]);
        assert(keys_of_funcs(s.subrange(0, 0)) =~= Seq::<u64>::empty());
        assert(keys_of_funcs(Seq::<FuncV>::empty()) == Seq::<u64>::empty());
        assert(keys_of_funcs(s.subrange(0, 1).drop_first()) == Seq::<u64>::empty());
        assert(key_of_func(s[0]) + Seq::<u64>::empty() =~= key_of_func(s[0]));
        assert(keys_of_funcs(s.subrange(0, 1)) =~= key_of_func(s[0]));
    } else {
        lemma_keys_of_funcs_snoc(s.drop_first(), j - 1);
        assert(s.subrange(0, j + 1).drop_first() =~= s.drop_first().subrange(0, j));
        assert(s.subrange(0, j).drop_first() =~= s.drop_first().subrange(0, j - 1));
        assert(s.subrange(0, j + 1)[0] == s[0]);
        assert(s.subrange(0, j)[0] == s[0]);
        assert(s.drop_first()[j - 1] == s[j]);
        assert(keys_of_funcs(s.subrange(0, j + 1)) =~= keys_of_funcs(s.subrange(0, j))
            + key_of_func(s[j]));
    }
}

/// Appends one function element's key.
fn func_key_into(f: &Function, out: &mut Vec<u64>)
    ensures
        final(out)@ == old(out)@ + key_of_func(f@),
    decreases *f,
{
    match &f.body {
        FuncBody::Code(id) => {
            out.push(0);
            out.push(f.sig.args as u64);
            out.push(f.sig.outputs as u64);
            out.push(*id);
            proof {
                assert(out@ =~= old(out)@ + key_of_func(f@));
            }
        },
        FuncBody::Const(v) => {
            let sub = v.ord_key();
            out.push(1);
            out.push(f.sig.args as u64);
            out.push(f.sig.outputs as u64);
            out.push(sub.len() as u64);
            let n = sub.len();
            proof {
                assert(out@ =~= old(out)@ + seq![
                    1u64,
                    f.sig.args as u64,
                    f.sig.outputs as u64,
                    sub@.len() as u64,
                ] + sub@.subrange(0, 0));
            }
            let mut i: usize = 0;
            while i < n
                invariant
                    i <= n,
                    n == sub@.len(),
                    out@ == old(out)@ + seq![
                        1u64,
                        f.sig.args as u64,
                        f.sig.outputs as u64,
                        sub@.len() as u64,
                    ] + sub@.subrange(0, i as int),
                decreases n - i,
            {
                out.push(sub[i]);
                proof {
                    assert(out@ =~= old(out)@ + seq![
                        1u64,
                        f.sig.args as u64,
                        f.sig.outputs as u64,
                        sub@.len() as u64,
                    ] + sub@.subrange(0, i + 1));
                }
                i = i + 1;
            }
            proof {
                assert(sub@.subrange(0, n as int) =~= sub@);
                assert(out@ =~= old(out)@ + key_of_func(f@));
            }
        },
    }
}

/// Compares two keys lexicographically.
fn lex_cmp_exec(a: &Vec<u64>, b: &Vec<u64>) -> (r: Ordering)
    ensures
        r == Ordering::Less <==> lex_cmp(a@, b@) < 0,
        r == Ordering::Equal <==> lex_cmp(a@, b@) == 0,
        r == Ordering::Greater <==> lex_cmp(a@, b@) > 0,
{
    let na = a.len();
    let nb = b.len();
    proof {
        assert(a@.subrange(0, na as int) =~= a@);
        assert(b@.subrange(0, nb as int) =~= b@);
    }
    let mut i: usize = 0;
    while i < na && i < nb
        invariant
            i <= na,
            i <= nb,
            na == a@.len(),
            nb == b@.len(),
            lex_cmp(a@.subrange(i as int, na as int), b@.subrange(i as int, nb as int)) == lex_cmp(
                a@,
                b@,
            ),
            forall|k: int| 0 <= k < i ==> a@[k] == b@[k],
        decreases na - i,
    {
        proof {
            assert(a@.subrange(i as int, na as int).drop_first() =~= a@.subrange(i + 1, na as int));
            assert(b@.subrange(i as int, nb as int).drop_first() =~= b@.subrange(i + 1, nb as int));
        }
        if a[i] < b[i] {
            return Ordering::Less;
        } else if a[i] > b[i] {
            return Ordering::Greater;
        }
        i = i + 1;
    }
    proof {
        if i == na {
            assert(a@.subrange(na as int, na as int) =~= Seq::<u64>::empty());
        }
        if i == nb {
            assert(b@.subrange(nb as int, nb as int) =~= Seq::<u64>::empty());
        }
    }
    if na < nb {
        Ordering::Less
    } else if na > nb {
        Ordering::Greater
    } else {
        Ordering::Equal
    }
}

/// Compares two keys for equality.
fn vecs_equal(a: &Vec<u64>, b: &Vec<u64>) -> (r: bool)
    ensures
        r == (a@ == b@),
{
    if a.len() != b.len() {
        proof {
            assert(a@.len() != b@.len() ==> a@ != b@);
        }
        return false;
    }
    let n = a.len();
    let mut i: usize = 0;
    while i < n
        invariant
            i <= n,
            n == a@.len(),
            n == b@.len(),
            forall|k: int| 0 <= k < i ==> a@[k] == b@[k],
        decreases n - i,
    {
        if a[i] != b[i] {
            return false;
        }
        i = i + 1;
    }
    proof {
        assert(a@ =~= b@);
    }
    true
}

} // verus!
