//! The one runtime datum of the language: a tagged union over four array
//! kinds. Numbers are doubles held as IEEE-754 bit patterns, bytes are a
//! storage optimisation of numbers restricted to integers in 0..=255,
//! characters carry text, and functions make arrays heterogeneous through
//! boxing. The tag is runtime information: the language is dynamically
//! typed over element kind.

use crate::array::{row_shape, shape_product, Array};
use crate::func::{func_view, FuncV, Function, Signature};
use vstd::prelude::*;
use vstd::string::StrSliceExecFns;

verus! {

/// A value: one of the four array kinds.
pub enum Value {
    Num(Array<u64>),
    Byte(Array<u8>),
    Char(Array<char>),
    Func(Array<Function>),
}

/// Mathematical model of a value: the kind, the shape, and the flat
/// elements in row-major order.
pub enum ValV {
    Num { shape: Seq<usize>, elems: Seq<u64> },
    Byte { shape: Seq<usize>, elems: Seq<u8> },
    Char { shape: Seq<usize>, elems: Seq<char> },
    Func { shape: Seq<usize>, elems: Seq<FuncV> },
}

/// Models of a sequence of functions, elementwise.
pub open spec fn funcs_view(s: Seq<Function>) -> Seq<FuncV>
    decreases s,
{
    if s.len() == 0 {
        Seq::empty()
    } else {
        seq![func_view(s[0])] + funcs_view(s.drop_first())
    }
}

/// Each model in `funcs_view` is the model of the function at the same
/// position.
pub proof fn lemma_funcs_view(s: Seq<Function>)
    ensures
        funcs_view(s).len() == s.len(),
        forall|i: int| 0 <= i < s.len() ==> funcs_view(s)[i] == func_view(s[i]),
    decreases s,
{
    if s.len() > 0 {
        lemma_funcs_view(s.drop_first());
    }
}

/// Model of a value; function elements are modelled recursively.
pub open spec fn val_view(v: Value) -> ValV
    decreases v,
{
    match v {
        Value::Num(a) => ValV::Num { shape: a.shape@, elems: a.data@ },
        Value::Byte(a) => ValV::Byte { shape: a.shape@, elems: a.data@ },
        Value::Char(a) => ValV::Char { shape: a.shape@, elems: a.data@ },
        Value::Func(a) => ValV::Func { shape: a.shape@, elems: funcs_view(a.data@) },
    }
}

impl View for Value {
    type V = ValV;

    open spec fn view(&self) -> ValV {
        val_view(*self)
    }
}

impl ValV {
    pub open spec fn shape(&self) -> Seq<usize> {
        match *self {
            ValV::Num { shape, .. } => shape,
            ValV::Byte { shape, .. } => shape,
            ValV::Char { shape, .. } => shape,
            ValV::Func { shape, .. } => shape,
        }
    }

    pub open spec fn rank(&self) -> nat {
        self.shape().len()
    }

    /// Number of flat elements.
    pub open spec fn flat_len(&self) -> nat {
        match *self {
            ValV::Num { elems, .. } => elems.len(),
            ValV::Byte { elems, .. } => elems.len(),
            ValV::Char { elems, .. } => elems.len(),
            ValV::Func { elems, .. } => elems.len(),
        }
    }

    /// Rank of the four kinds in the fixed cross-kind order: numbers and
    /// bytes below characters below functions.
    pub open spec fn kind_rank(&self) -> int {
        match *self {
            ValV::Num { .. } => 0,
            ValV::Byte { .. } => 0,
            ValV::Char { .. } => 1,
            ValV::Func { .. } => 2,
        }
    }

    /// Well-formed: the shape invariant holds, recursively through boxed
    /// constants.
    pub open spec fn wf(&self) -> bool
        decreases *self,
    {
        shape_product(self.shape()) == self.flat_len() && (*self is Func ==> forall|i: int|
            0 <= i < self->Func_elems.len() ==> (#[trigger] self->Func_elems[i]).wf())
    }

    /// Unfolds well-formedness of a function array to its elements.
    pub proof fn lemma_wf_func_elems(&self)
        requires
            self.wf(),
            *self is Func,
        ensures
            forall|i: int|
                0 <= i < self->Func_elems.len() ==> (#[trigger] self->Func_elems[i]).wf(),
    {
    }

    /// Number of leading-axis rows.
    pub open spec fn row_count(&self) -> int {
        if self.shape().len() == 0 {
            1
        } else {
            self.shape()[0] as int
        }
    }

    /// Flat length of one leading-axis row.
    pub open spec fn row_len(&self) -> int {
        if self.shape().len() == 0 {
            1
        } else {
            shape_product(self.shape().drop_first())
        }
    }

    /// The same elements under a different shape.
    pub open spec fn with_shape(&self, shape: Seq<usize>) -> ValV {
        match *self {
            ValV::Num { elems, .. } => ValV::Num { shape, elems },
            ValV::Byte { elems, .. } => ValV::Byte { shape, elems },
            ValV::Char { elems, .. } => ValV::Char { shape, elems },
            ValV::Func { elems, .. } => ValV::Func { shape, elems },
        }
    }

    /// The same kind and shape over a subrange of the elements.
    pub open spec fn slice(&self, from: int, to: int, shape: Seq<usize>) -> ValV {
        match *self {
            ValV::Num { elems, .. } => ValV::Num { shape, elems: elems.subrange(from, to) },
            ValV::Byte { elems, .. } => ValV::Byte { shape, elems: elems.subrange(from, to) },
            ValV::Char { elems, .. } => ValV::Char { shape, elems: elems.subrange(from, to) },
            ValV::Func { elems, .. } => ValV::Func { shape, elems: elems.subrange(from, to) },
        }
    }

    /// The `i`-th leading-axis row.
    pub open spec fn row(&self, i: int) -> ValV {
        self.slice(i * self.row_len(), (i + 1) * self.row_len(), row_shape(self.shape()))
    }
}

impl Value {
    /// The shape, uniform across the four kinds.
    pub fn shape(&self) -> (r: &Vec<usize>)
        ensures
            r@ == self@.shape(),
    {
        match self {
            Value::Num(a) => a.shape(),
            Value::Byte(a) => a.shape(),
            Value::Char(a) => a.shape(),
            Value::Func(a) => a.shape(),
        }
    }

    /// Rank: the number of shape dimensions; rank 0 is a scalar.
    pub fn rank(&self) -> (r: usize)
        ensures
            r == self@.rank(),
    {
        self.shape().len()
    }

    /// The flat element count.
    pub fn flat_len(&self) -> (r: usize)
        ensures
            r == self@.flat_len(),
    {
        match self {
            Value::Num(a) => a.flat_len(),
            Value::Byte(a) => a.flat_len(),
            Value::Char(a) => a.flat_len(),
            Value::Func(a) => {
                proof {
                    lemma_funcs_view(a.data@);
                }
                a.flat_len()
            },
        }
    }

    /// The kind's name, as diagnostics spell it; bytes are numbers in
    /// narrow storage, so both numeric kinds are called "number".
    pub fn kind_name(&self) -> (r: &'static str)
        ensures
            r@ == self@.kind_name_spec(),
    {
        match self {
            Value::Num(_) => "number",
            Value::Byte(_) => "number",
            Value::Char(_) => "character",
            Value::Func(_) => "function",
        }
    }

    /// Number of leading-axis rows.
    pub fn row_count(&self) -> (r: usize)
        ensures
            r == self@.row_count(),
    {
        match self {
            Value::Num(a) => a.row_count(),
            Value::Byte(a) => a.row_count(),
            Value::Char(a) => a.row_count(),
            Value::Func(a) => a.row_count(),
        }
    }

    /// Flat length of one leading-axis row; see `Array::row_len` for the
    /// representability bound.
    pub fn row_len(&self) -> (r: usize)
        requires
            self@.wf(),
            self@.row_len() <= usize::MAX,
        ensures
            r == self@.row_len(),
    {
        match self {
            Value::Num(a) => a.row_len(),
            Value::Byte(a) => a.row_len(),
            Value::Char(a) => a.row_len(),
            Value::Func(a) => {
                proof {
                    lemma_funcs_view(a.data@);
                }
                a.row_len()
            },
        }
    }

    /// Whether the shapes agree on their shared prefix, the condition for
    /// broadcasting without a fill.
    pub fn shape_prefixes_match(&self, other: &Value) -> (r: bool)
        ensures
            r == shapes_prefix_match(self@.shape(), other@.shape()),
    {
        let a = self.shape();
        let b = other.shape();
        let n = if a.len() < b.len() {
            a.len()
        } else {
            b.len()
        };
        let mut i: usize = 0;
        while i < n
            invariant
                i <= n,
                n == if a@.len() < b@.len() {
                    a@.len()
                } else {
                    b@.len()
                },
                a@ == self@.shape(),
                b@ == other@.shape(),
                forall|j: int| 0 <= j < i ==> a@[j] == b@[j],
            decreases n - i,
        {
            if a[i] != b[i] {
                return false;
            }
            i = i + 1;
        }
        true
    }
}

/// The name a kind reports in diagnostics.
impl ValV {
    pub open spec fn kind_name_spec(&self) -> Seq<char> {
        match *self {
            ValV::Num { .. } => "number"@,
            ValV::Byte { .. } => "number"@,
            ValV::Char { .. } => "character"@,
            ValV::Func { .. } => "function"@,
        }
    }
}

/// The shapes agree at every shared position.
pub open spec fn shapes_prefix_match(a: Seq<usize>, b: Seq<usize>) -> bool {
    forall|j: int| 0 <= j < a.len() && j < b.len() ==> a[j] == b[j]
}

impl Value {
    /// An exact copy: the model is unchanged.
    pub fn dup(&self) -> (r: Value)
        ensures
            r@ == self@,
        decreases *self,
    {
        match self {
            Value::Num(a) => Value::Num(a.dup()),
            Value::Byte(a) => Value::Byte(a.dup()),
            Value::Char(a) => Value::Char(a.dup()),
            Value::Func(a) => {
                let n = a.data.len();
                let mut data: Vec<Function> = Vec::new();
                let mut i: usize = 0;
                while i < n
                    invariant
                        i <= n,
                        n == a.data@.len(),
                        data@.len() == i,
                        *self == Value::Func(*a),
                        forall|k: int|
                            0 <= k < i ==> #[trigger] func_view(data@[k]) == func_view(a.data@[k]),
                    decreases n - i,
                {
                    proof {
                        broadcast use vstd::std_specs::vec::group_vec_axioms;

                        assert(decreases_to!(*self => self->Func_0));
                        assert(decreases_to!(self->Func_0 => self->Func_0.data));
                        assert(decreases_to!(self->Func_0.data => a.data@));
                        assert(decreases_to!(a.data@ => a.data@[i as int]));
                        assert(decreases_to!(*self => a.data@[i as int]));
                    }
                    data.push(a.data[i].dup());
                    i = i + 1;
                }
                proof {
                    lemma_funcs_view(data@);
                    lemma_funcs_view(a.data@);
                    assert(funcs_view(data@) =~= funcs_view(a.data@));
                }
                Value::Func(Array { shape: crate::array::dup_vec(&a.shape), data })
            },
        }
    }

    /// A scalar number from a double's bit pattern.
    pub fn scalar_num(x: u64) -> (r: Value)
        ensures
            r@ == (ValV::Num { shape: Seq::<usize>::empty(), elems: seq![x] }),
            r@.wf(),
    {
        Value::Num(Array::scalar(x))
    }

    /// A scalar byte.
    pub fn scalar_byte(b: u8) -> (r: Value)
        ensures
            r@ == (ValV::Byte { shape: Seq::<usize>::empty(), elems: seq![b] }),
            r@.wf(),
    {
        Value::Byte(Array::scalar(b))
    }

    /// A scalar character.
    pub fn scalar_char(c: char) -> (r: Value)
        ensures
            r@ == (ValV::Char { shape: Seq::<usize>::empty(), elems: seq![c] }),
            r@.wf(),
    {
        Value::Char(Array::scalar(c))
    }

    /// A scalar function.
    pub fn scalar_func(f: Function) -> (r: Value)
        ensures
            r@ == (ValV::Func { shape: Seq::<usize>::empty(), elems: seq![f@] }),
            f@.wf() ==> r@.wf(),
    {
        let a = Array::scalar(f);
        proof {
            lemma_funcs_view(a.data@);
            assert(funcs_view(a.data@) =~= seq![a.data@[0]@]);
        }
        Value::Func(a)
    }

    /// A boolean as the byte 0 or 1.
    pub fn from_bool(b: bool) -> (r: Value)
        ensures
            r@ == (ValV::Byte {
                shape: Seq::<usize>::empty(),
                elems: seq![if b {
                    1u8
                } else {
                    0u8
                }],
            }),
            r@.wf(),
    {
        Value::scalar_byte(if b {
            1
        } else {
            0
        })
    }

    /// A rank-1 number array from double bit patterns.
    pub fn num_list(data: Vec<u64>) -> (r: Value)
        ensures
            r@ == (ValV::Num { shape: seq![data@.len() as usize], elems: data@ }),
            r@.wf(),
    {
        Value::Num(Array::list(data))
    }

    /// A rank-1 byte array.
    pub fn byte_list(data: Vec<u8>) -> (r: Value)
        ensures
            r@ == (ValV::Byte { shape: seq![data@.len() as usize], elems: data@ }),
            r@.wf(),
    {
        Value::Byte(Array::list(data))
    }

    /// A rank-1 character array.
    pub fn char_list(data: Vec<char>) -> (r: Value)
        ensures
            r@ == (ValV::Char { shape: seq![data@.len() as usize], elems: data@ }),
            r@.wf(),
    {
        Value::Char(Array::list(data))
    }

    /// A rank-1 character array holding the text's characters in order.
    pub fn from_text(s: &str) -> (r: Value)
        ensures
            r@ == (ValV::Char { shape: seq![s@.len() as usize], elems: s@ }),
            r@.wf(),
    {
        let mut data: Vec<char> = Vec::new();
        let n = s.unicode_len();
        let mut i: usize = 0;
        while i < n
            invariant
                i <= n,
                n == s@.len(),
                data@ == s@.subrange(0, i as int),
            decreases n - i,
        {
            data.push(s.get_char(i));
            proof {
                assert(data@ =~= s@.subrange(0, i + 1));
            }
            i = i + 1;
        }
        proof {
            assert(data@ =~= s@);
        }
        Value::char_list(data)
    }

    /// The number array behind a `Num` value.
    pub fn as_num_array(&self) -> (r: Option<&Array<u64>>)
        ensures
            match r {
                Some(a) => self@ == (ValV::Num { shape: a.shape@, elems: a.data@ }),
                None => !(self@ is Num),
            },
    {
        match self {
            Value::Num(a) => Some(a),
            _ => None,
        }
    }

    /// The byte array behind a `Byte` value.
    pub fn as_byte_array(&self) -> (r: Option<&Array<u8>>)
        ensures
            match r {
                Some(a) => self@ == (ValV::Byte { shape: a.shape@, elems: a.data@ }),
                None => !(self@ is Byte),
            },
    {
        match self {
            Value::Byte(a) => Some(a),
            _ => None,
        }
    }

    /// The character array behind a `Char` value.
    pub fn as_char_array(&self) -> (r: Option<&Array<char>>)
        ensures
            match r {
                Some(a) => self@ == (ValV::Char { shape: a.shape@, elems: a.data@ }),
                None => !(self@ is Char),
            },
    {
        match self {
            Value::Char(a) => Some(a),
            _ => None,
        }
    }

    /// The function array behind a `Func` value.
    pub fn as_func_array(&self) -> (r: Option<&Array<Function>>)
        ensures
            match r {
                Some(a) => self@ is Func && self@.shape() == a.shape@ && self@ == (ValV::Func {
                    shape: a.shape@,
                    elems: funcs_view(a.data@),
                }),
                None => !(self@ is Func),
            },
    {
        match self {
            Value::Func(a) => Some(a),
            _ => None,
        }
    }

    /// The function array behind a `Func` value, by ownership, or the
    /// value back unchanged.
    pub fn into_func_array(self) -> (r: Result<Array<Function>, Value>)
        ensures
            match r {
                Ok(a) => self@ == (ValV::Func {
                    shape: a.shape@,
                    elems: funcs_view(a.data@),
                }),
                Err(v) => v@ == self@ && !(self@ is Func),
            },
    {
        match self {
            Value::Func(a) => Ok(a),
            v => Err(v),
        }
    }

    /// The function a scalar `Func` value holds.
    pub fn as_function(&self) -> (r: Option<&Function>)
        ensures
            match r {
                Some(f) => self@ is Func && self@.rank() == 0 && self@.flat_len() == 1
                    && (ValV::Func {
                    shape: self@.shape(),
                    elems: seq![f@],
                }) == self@,
                None => !(self@ is Func && self@.rank() == 0 && self@.flat_len() == 1),
            },
    {
        match self {
            Value::Func(a) => {
                if a.rank() == 0 && a.flat_len() == 1 {
                    let f = &a.data[0];
                    proof {
                        lemma_funcs_view(a.data@);
                        assert(funcs_view(a.data@) =~= seq![a.data@[0]@]);
                    }
                    Some(f)
                } else {
                    None
                }
            },
            _ => None,
        }
    }

    /// The signature a value presents: a scalar function's own, and the
    /// constant signature (no arguments, one result) for anything else.
    pub fn signature(&self) -> (r: Signature)
        ensures
            r == match self.as_function_spec() {
                Some(f) => f.sig(),
                None => Signature { args: 0, outputs: 1 },
            },
    {
        match self.as_function() {
            Some(f) => f.signature(),
            None => Signature::new(0, 1),
        }
    }

    /// The function a scalar `Func` value holds, by ownership, or the
    /// value back unchanged.
    pub fn into_function(self) -> (r: Result<Function, Value>)
        ensures
            match r {
                Ok(f) => self.as_function_spec() == Some(f@),
                Err(v) => v@ == self@ && self.as_function_spec() is None,
            },
    {
        match self {
            Value::Func(a) => {
                proof {
                    lemma_funcs_view(a.data@);
                }
                if a.shape.len() == 0 && a.data.len() == 1 {
                    let mut a = a;
                    let f = a.data.pop().unwrap();
                    Ok(f)
                } else {
                    Err(Value::Func(a))
                }
            },
            v => Err(v),
        }
    }

    /// A builder that will accumulate rows into a value.
    pub fn builder(capacity: usize) -> (r: crate::builder::ValueBuilder)
        ensures
            r.value is None,
            r.capacity == capacity,
            r.inv(),
    {
        crate::builder::ValueBuilder::with_capacity(capacity)
    }

    /// The function a scalar `Func` value holds, in the model.
    pub open spec fn as_function_spec(&self) -> Option<FuncV> {
        match self@ {
            ValV::Func { shape, elems } => {
                if shape.len() == 0 && elems.len() == 1 {
                    Some(elems[0])
                } else {
                    None
                }
            },
            _ => None,
        }
    }
}

/// The function that boxes element `i` of a value: for a concrete
/// element, a zero-argument constant function yielding that scalar; for
/// a function element, the element itself.
pub open spec fn boxed_elem(v: ValV, i: int) -> FuncV {
    let sig = Signature { args: 0, outputs: 1 };
    match v {
        ValV::Num { elems, .. } => FuncV::Const(
            sig,
            Box::new(ValV::Num { shape: Seq::<usize>::empty(), elems: seq![elems[i]] }),
        ),
        ValV::Byte { elems, .. } => FuncV::Const(
            sig,
            Box::new(ValV::Byte { shape: Seq::<usize>::empty(), elems: seq![elems[i]] }),
        ),
        ValV::Char { elems, .. } => FuncV::Const(
            sig,
            Box::new(ValV::Char { shape: Seq::<usize>::empty(), elems: seq![elems[i]] }),
        ),
        ValV::Func { elems, .. } => elems[i],
    }
}

impl Value {
    /// Wraps every element as a zero-argument constant function, making
    /// a uniformly function-kinded array; a function array passes
    /// through unchanged.
    pub fn coerce_to_function(self) -> (r: Array<Function>)
        requires
            self@.wf(),
        ensures
            r.shape@ == self@.shape(),
            funcs_view(r.data@).len() == self@.flat_len(),
            forall|i: int|
                0 <= i < self@.flat_len() ==> funcs_view(r.data@)[i] == boxed_elem(self@, i),
            shape_product(r.shape@) == r.data@.len(),
    {
        let ghost gv = self@;
        match self {
            Value::Func(a) => {
                proof {
                    lemma_funcs_view(a.data@);
                }
                a
            },
            Value::Num(a) => {
                let n = a.data.len();
                let mut data: Vec<Function> = Vec::new();
                let mut i: usize = 0;
                while i < n
                    invariant
                        i <= n,
                        n == a.data@.len(),
                        gv == (ValV::Num { shape: a.shape@, elems: a.data@ }),
                        data@.len() == i,
                        forall|k: int|
                            0 <= k < i ==> #[trigger] func_view(data@[k]) == boxed_elem(gv, k),
                    decreases n - i,
                {
                    data.push(Function::constant(Value::scalar_num(a.data[i])));
                    i = i + 1;
                }
                proof {
                    lemma_funcs_view(data@);
                }
                Array { shape: a.shape, data }
            },
            Value::Byte(a) => {
                let n = a.data.len();
                let mut data: Vec<Function> = Vec::new();
                let mut i: usize = 0;
                while i < n
                    invariant
                        i <= n,
                        n == a.data@.len(),
                        gv == (ValV::Byte { shape: a.shape@, elems: a.data@ }),
                        data@.len() == i,
                        forall|k: int|
                            0 <= k < i ==> #[trigger] func_view(data@[k]) == boxed_elem(gv, k),
                    decreases n - i,
                {
                    data.push(Function::constant(Value::scalar_byte(a.data[i])));
                    i = i + 1;
                }
                proof {
                    lemma_funcs_view(data@);
                }
                Array { shape: a.shape, data }
            },
            Value::Char(a) => {
                let n = a.data.len();
                let mut data: Vec<Function> = Vec::new();
                let mut i: usize = 0;
                while i < n
                    invariant
                        i <= n,
                        n == a.data@.len(),
                        gv == (ValV::Char { shape: a.shape@, elems: a.data@ }),
                        data@.len() == i,
                        forall|k: int|
                            0 <= k < i ==> #[trigger] func_view(data@[k]) == boxed_elem(gv, k),
                    decreases n - i,
                {
                    data.push(Function::constant(Value::scalar_char(a.data[i])));
                    i = i + 1;
                }
                proof {
                    lemma_funcs_view(data@);
                }
                Array { shape: a.shape, data }
            },
        }
    }

    /// As `coerce_to_function`, reading the value without consuming it.
    pub fn coerce_as_function(&self) -> (r: Array<Function>)
        requires
            self@.wf(),
        ensures
            r.shape@ == self@.shape(),
            funcs_view(r.data@).len() == self@.flat_len(),
            forall|i: int|
                0 <= i < self@.flat_len() ==> funcs_view(r.data@)[i] == boxed_elem(self@, i),
            shape_product(r.shape@) == r.data@.len(),
    {
        self.dup().coerce_to_function()
    }
}

impl Value {
    /// The `i`-th leading-axis row, as a value of the same kind.
    pub fn row(&self, i: usize) -> (r: Value)
        requires
            self@.wf(),
            i < self@.row_count(),
        ensures
            r@ == self@.row(i as int),
            r@.wf(),
    {
        proof {
            if self@.shape().len() == 0 {
                assert(row_shape(self@.shape()) == self@.shape());
            }
        }
        match self {
            Value::Num(a) => Value::Num(a.row(i)),
            Value::Byte(a) => Value::Byte(a.row(i)),
            Value::Char(a) => Value::Char(a.row(i)),
            Value::Func(a) => {
                proof {
                    lemma_funcs_view(a.data@);
                    assert(a.wf());
                    a.lemma_row_len_fits();
                    self@.lemma_wf_func_elems();
                }
                let nlen = a.data.len();
                let rl = a.row_len();
                let shape: Vec<usize> = if a.shape.len() == 0 {
                    Vec::new()
                } else {
                    let mut sh = crate::array::dup_vec(&a.shape);
                    sh.remove(0);
                    sh
                };
                proof {
                    assert(shape@ =~= row_shape(a.shape@));
                    vstd::arithmetic::mul::lemma_mul_inequality(
                        i + 1,
                        a.spec_row_count(),
                        a.spec_row_len(),
                    );
                    vstd::arithmetic::mul::lemma_mul_is_distributive_add_other_way(
                        a.spec_row_len(),
                        i as int,
                        1,
                    );
                    vstd::arithmetic::mul::lemma_mul_nonnegative(i as int, a.spec_row_len());
                    vstd::arithmetic::mul::lemma_mul_inequality(
                        i as int,
                        i + 1,
                        a.spec_row_len(),
                    );
                }
                let n = nlen;
                let start: usize = i * rl;
                let mut data: Vec<Function> = Vec::new();
                let mut j: usize = 0;
                while j < rl
                    invariant
                        j <= rl,
                        start + rl <= n,
                        n == a.data@.len(),
                        data@.len() == j,
                        forall|k: int|
                            0 <= k < j ==> #[trigger] func_view(data@[k]) == func_view(
                                a.data@[start + k],
                            ),
                    decreases rl - j,
                {
                    data.push(a.data[start + j].dup());
                    j = j + 1;
                }
                proof {
                    lemma_funcs_view(data@);
                    lemma_funcs_view(a.data@);
                    assert(funcs_view(data@) =~= funcs_view(a.data@).subrange(
                        start as int,
                        start + rl,
                    ));
                    if a.shape@.len() == 0 {
                        assert(shape_product(shape@) == 1);
                    } else {
                        assert(shape@ == a.shape@.drop_first());
                    }
                }
                Value::Func(Array { shape, data })
            },
        }
    }

    /// All leading-axis rows, in order; the sequence is freshly derived
    /// and the value stays usable.
    pub fn rows(&self) -> (r: Vec<Value>)
        requires
            self@.wf(),
        ensures
            r@.len() == self@.row_count(),
            forall|i: int| 0 <= i < r@.len() ==> (#[trigger] r@[i])@ == self@.row(i),
    {
        let n = self.row_count();
        let mut out: Vec<Value> = Vec::new();
        let mut i: usize = 0;
        while i < n
            invariant
                i <= n,
                n == self@.row_count(),
                self@.wf(),
                out@.len() == i,
                forall|k: int| 0 <= k < i ==> (#[trigger] out@[k])@ == self@.row(k),
            decreases n - i,
        {
            out.push(self.row(i));
            i = i + 1;
        }
        out
    }

    /// All leading-axis rows, last first.
    pub fn rows_rev(&self) -> (r: Vec<Value>)
        requires
            self@.wf(),
        ensures
            r@.len() == self@.row_count(),
            forall|i: int|
                0 <= i < r@.len() ==> (#[trigger] r@[i])@ == self@.row(r@.len() - 1 - i),
    {
        let n = self.row_count();
        let mut out: Vec<Value> = Vec::new();
        let mut i: usize = 0;
        while i < n
            invariant
                i <= n,
                n == self@.row_count(),
                self@.wf(),
                out@.len() == i,
                forall|k: int| 0 <= k < i ==> (#[trigger] out@[k])@ == self@.row(n - 1 - k),
            decreases n - i,
        {
            out.push(self.row(n - 1 - i));
            i = i + 1;
        }
        out
    }

    /// The value with its leading axis emptied: same trailing shape, no
    /// rows, no elements.
    pub fn first_dim_zero(&self) -> (r: Value)
        requires
            self@.wf(),
            self@.shape().len() >= 1,
        ensures
            r@ == self@.slice(0, 0, seq![0usize] + self@.shape().drop_first()),
            r@.wf(),
    {
        let mut shape: Vec<usize> = Vec::new();
        shape.push(0);
        let rest = self.shape();
        let mut i: usize = 1;
        let n = rest.len();
        while i < n
            invariant
                1 <= i <= n,
                n == rest@.len(),
                rest@ == self@.shape(),
                shape@ == seq![0usize] + rest@.subrange(1, i as int),
            decreases n - i,
        {
            shape.push(rest[i]);
            proof {
                assert(shape@ =~= seq![0usize] + rest@.subrange(1, i + 1));
            }
            i = i + 1;
        }
        proof {
            assert(shape@ =~= seq![0usize] + self@.shape().drop_first());
            assert(shape@.drop_first() =~= self@.shape().drop_first());
            crate::array::lemma_product_nonneg(shape@.drop_first());
            vstd::arithmetic::mul::lemma_mul_basics(shape_product(shape@.drop_first()));
            assert(Seq::<u64>::empty() =~= Seq::<u64>::empty().subrange(0, 0));
        }
        let r = match self {
            Value::Num(_) => Value::Num(Array { shape, data: Vec::new() }),
            Value::Byte(_) => Value::Byte(Array { shape, data: Vec::new() }),
            Value::Char(_) => Value::Char(Array { shape, data: Vec::new() }),
            Value::Func(_) => Value::Func(Array { shape, data: Vec::new() }),
        };
        proof {
            match self@ {
                ValV::Num { elems, .. } => assert(r@->Num_elems =~= elems.subrange(0, 0)),
                ValV::Byte { elems, .. } => assert(r@->Byte_elems =~= elems.subrange(0, 0)),
                ValV::Char { elems, .. } => assert(r@->Char_elems =~= elems.subrange(0, 0)),
                ValV::Func { elems, .. } => assert(r@->Func_elems =~= elems.subrange(0, 0)),
            }
        }
        r
    }
}

impl Default for Value {
    /// The default value: an empty byte array with a leading axis of
    /// zero.
    fn default() -> (r: Value)
        ensures
            r@ == (ValV::Byte { shape: seq![0usize], elems: Seq::empty() }),
            r@.wf(),
    {
        let mut shape: Vec<usize> = Vec::new();
        shape.push(0);
        let r = Value::Byte(Array { shape, data: Vec::new() });
        proof {
            assert(r@->Byte_shape =~= seq![0usize]);
            assert(r@->Byte_elems =~= Seq::<u8>::empty());
            assert(r@.shape().drop_first() =~= Seq::<usize>::empty());
            vstd::arithmetic::mul::lemma_mul_basics(
                crate::array::shape_product(r@.shape().drop_first()),
            );
        }
        r
    }
}

/// The scalar value one flat element makes, of the same kind.
pub open spec fn elem_scalar(v: ValV, i: int) -> ValV {
    match v {
        ValV::Num { elems, .. } => ValV::Num { shape: Seq::empty(), elems: seq![elems[i]] },
        ValV::Byte { elems, .. } => ValV::Byte { shape: Seq::empty(), elems: seq![elems[i]] },
        ValV::Char { elems, .. } => ValV::Char { shape: Seq::empty(), elems: seq![elems[i]] },
        ValV::Func { elems, .. } => ValV::Func { shape: Seq::empty(), elems: seq![elems[i]] },
    }
}

impl Value {
    /// Every flat element as a scalar value of the same kind, in
    /// row-major order.
    pub fn flat_values(&self) -> (r: Vec<Value>)
        requires
            self@.wf(),
        ensures
            r@.len() == self@.flat_len(),
            forall|i: int| 0 <= i < r@.len() ==> (#[trigger] r@[i])@ == elem_scalar(self@, i),
    {
        let mut out: Vec<Value> = Vec::new();
        match self {
            Value::Num(a) => {
                let n = a.data.len();
                let mut i: usize = 0;
                while i < n
                    invariant
                        i <= n,
                        n == a.data@.len(),
                        *self == Value::Num(*a),
                        out@.len() == i,
                        forall|k: int|
                            0 <= k < i ==> (#[trigger] out@[k])@ == elem_scalar(self@, k),
                    decreases n - i,
                {
                    out.push(Value::scalar_num(a.data[i]));
                    i = i + 1;
                }
            },
            Value::Byte(a) => {
                let n = a.data.len();
                let mut i: usize = 0;
                while i < n
                    invariant
                        i <= n,
                        n == a.data@.len(),
                        *self == Value::Byte(*a),
                        out@.len() == i,
                        forall|k: int|
                            0 <= k < i ==> (#[trigger] out@[k])@ == elem_scalar(self@, k),
                    decreases n - i,
                {
                    out.push(Value::scalar_byte(a.data[i]));
                    i = i + 1;
                }
            },
            Value::Char(a) => {
                let n = a.data.len();
                let mut i: usize = 0;
                while i < n
                    invariant
                        i <= n,
                        n == a.data@.len(),
                        *self == Value::Char(*a),
                        out@.len() == i,
                        forall|k: int|
                            0 <= k < i ==> (#[trigger] out@[k])@ == elem_scalar(self@, k),
                    decreases n - i,
                {
                    out.push(Value::scalar_char(a.data[i]));
                    i = i + 1;
                }
            },
            Value::Func(a) => {
                proof {
                    lemma_funcs_view(a.data@);
                }
                let n = a.data.len();
                let mut i: usize = 0;
                while i < n
                    invariant
                        i <= n,
                        n == a.data@.len(),
                        *self == Value::Func(*a),
                        funcs_view(a.data@).len() == n,
                        forall|k: int|
                            0 <= k < n ==> funcs_view(a.data@)[k] == #[trigger] func_view(
                                a.data@[k],
                            ),
                        out@.len() == i,
                        forall|k: int|
                            0 <= k < i ==> (#[trigger] out@[k])@ == elem_scalar(self@, k),
                    decreases n - i,
                {
                    out.push(Value::scalar_func(a.data[i].dup()));
                    i = i + 1;
                }
            },
        }
        out
    }
}

} // verus!
