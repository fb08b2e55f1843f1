use vstd::prelude::*;
use std::rc::Rc;
use crate::stmt::FunctionDecl;

verus! {

/// Relies on `Rc::clone`: the new handle refers to the same declaration.
#[verifier::external_body]
pub fn share_decl(d: &Rc<FunctionDecl>) -> (r: Rc<FunctionDecl>)
    ensures
        *r == **d,
{
    Rc::clone(d)
}

/// The built-in procedures.
#[derive(PartialEq, Eq, Structural, Clone, Copy, Debug)]
pub enum Native {
    /// Milliseconds since the POSIX epoch.
    Clock,
}

/// A callable value: a built-in, or a user function with the scope it closes over.
pub enum Procedure {
    Native {
        name: String,
        arity: usize,
        body: Native,
    },
    User {
        arity: usize,
        decl: Rc<FunctionDecl>,
        closure: usize,
    },
}

impl Clone for Procedure {
    fn clone(&self) -> (r: Self)
        ensures
            r == *self,
    {
        match self {
            Procedure::Native { name, arity, body } => Procedure::Native { name: name.clone(), arity: *arity, body: *body },
            Procedure::User { arity, decl, closure } => Procedure::User { arity: *arity, decl: share_decl(decl), closure: *closure },
        }
    }
}


impl Procedure {
    /// The number of parameters.
    pub fn arity(&self) -> (r: usize)
        ensures
            r == (match *self {
                Procedure::Native { arity, .. } => arity,
                Procedure::User { arity, .. } => arity,
            }),
    {
        match self {
            Procedure::Native { arity, .. } => *arity,
            Procedure::User { arity, .. } => *arity,
        }
    }
}

} // verus!
