//! Function values. A function is immutable once built: a signature
//! together with either a handle to compiled code (owned by the external
//! compiler and referenced here by index only) or a boxed constant value,
//! which lets any value occupy a function-typed array slot.

use crate::value::{val_view, ValV, Value};
use vstd::prelude::*;

verus! {

/// How many arguments a function consumes and how many results it
/// produces.
#[derive(PartialEq, Eq, Structural, Clone, Copy, Debug)]
pub struct Signature {
    pub args: usize,
    pub outputs: usize,
}

impl Signature {
    pub fn new(args: usize, outputs: usize) -> (r: Signature)
        ensures
            r == (Signature { args, outputs }),
    {
        Signature { args, outputs }
    }
}

/// What a function does: run compiled instructions (referenced by the
/// handle the compiler assigned) or yield a captured constant.
pub enum FuncBody {
    Code(u64),
    Const(Box<Value>),
}

/// An immutable function value.
pub struct Function {
    pub sig: Signature,
    pub body: FuncBody,
}

/// Mathematical model of a function value.
pub enum FuncV {
    Code(Signature, u64),
    Const(Signature, Box<ValV>),
}

/// Model of a function: code keeps its handle, a boxed constant keeps the
/// model of its value.
pub open spec fn func_view(f: Function) -> FuncV
    decreases f,
{
    match f.body {
        FuncBody::Code(id) => FuncV::Code(f.sig, id),
        FuncBody::Const(v) => FuncV::Const(f.sig, Box::new(val_view(*v))),
    }
}

impl View for Function {
    type V = FuncV;

    open spec fn view(&self) -> FuncV {
        func_view(*self)
    }
}

impl FuncV {
    pub open spec fn sig(&self) -> Signature {
        match *self {
            FuncV::Code(s, _) => s,
            FuncV::Const(s, _) => s,
        }
    }

    /// The boxed constant value, for a constant function.
    pub open spec fn boxed(&self) -> Option<ValV> {
        match *self {
            FuncV::Code(_, _) => None,
            FuncV::Const(_, v) => Some(*v),
        }
    }

    /// Well-formed: a boxed constant holds a well-formed value.
    pub open spec fn wf(&self) -> bool
        decreases *self,
    {
        match *self {
            FuncV::Code(_, _) => true,
            FuncV::Const(_, v) => v.wf(),
        }
    }
}

impl Function {
    /// A zero-argument constant function boxing the given value.
    pub fn constant(v: Value) -> (r: Function)
        ensures
            r@ == FuncV::Const(Signature { args: 0, outputs: 1 }, Box::new(v@)),
    {
        Function { sig: Signature { args: 0, outputs: 1 }, body: FuncBody::Const(Box::new(v)) }
    }

    /// A compiled function with the given signature, referenced by the
    /// handle the compiler assigned to its instructions.
    pub fn code(sig: Signature, id: u64) -> (r: Function)
        ensures
            r@ == FuncV::Code(sig, id),
    {
        Function { sig, body: FuncBody::Code(id) }
    }

    pub fn signature(&self) -> (r: Signature)
        ensures
            r == self@.sig(),
    {
        self.sig
    }

    /// The boxed constant value, if this function is a boxed constant.
    pub fn as_boxed(&self) -> (r: Option<&Value>)
        ensures
            match r {
                Some(v) => self@.boxed() == Some(v@),
                None => self@.boxed() is None,
            },
    {
        match &self.body {
            FuncBody::Const(v) => Some(v),
            FuncBody::Code(_) => None,
        }
    }

    /// The boxed constant value by ownership, or the function itself back.
    pub fn into_unboxed(self) -> (r: Result<Value, Function>)
        ensures
            match r {
                Ok(v) => self@.boxed() == Some(v@),
                Err(f) => f@ == self@ && self@.boxed() is None,
            },
    {
        match self.body {
            FuncBody::Const(v) => Ok(*v),
            FuncBody::Code(id) => Err(Function { sig: self.sig, body: FuncBody::Code(id) }),
        }
    }

    /// An exact copy: the model is unchanged.
    pub fn dup(&self) -> (r: Function)
        ensures
            r@ == self@,
        decreases *self,
    {
        match &self.body {
            FuncBody::Code(id) => Function { sig: self.sig, body: FuncBody::Code(*id) },
            FuncBody::Const(v) => Function {
                sig: self.sig,
                body: FuncBody::Const(Box::new(v.dup())),
            },
        }
    }
}

} // verus!
