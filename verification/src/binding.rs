//! Local-variable frames.
use vstd::prelude::*;

use crate::value::{views_of, Value, ValueView};

verus! {

/// The mathematical shape of a binding.
#[verifier::ext_equal]
pub struct BindingView {
    pub locals: Seq<ValueView>,
    pub parent: Option<usize>,
}

/// The mutable local-variable frame of one call or closure scope.
///
/// A binding belongs to the arena of exactly one process and is only ever
/// mutated by that process; `parent` is the arena index of the enclosing
/// scope's binding, if the scope has one.
pub struct Binding {
    /// The local-variable slots, in declaration order.
    pub locals: Vec<Value>,
    /// The arena index of the binding of the enclosing scope.
    pub parent: Option<usize>,
}

impl View for Binding {
    type V = BindingView;

    open spec fn view(&self) -> BindingView {
        BindingView { locals: views_of(self.locals@), parent: self.parent }
    }
}

impl Binding {
    /// A fresh binding with no locals and no enclosing scope.
    pub fn new() -> (b: Binding)
        ensures
            b@.locals.len() == 0,
            b@.parent is None,
    {
        let b = Binding { locals: Vec::new(), parent: None };
        proof {
            crate::value::lemma_views_of(b.locals@);
        }
        b
    }

    /// The value of the local slot at `index`, if it exists.
    pub fn get_local(&self, index: usize) -> (r: Option<&Value>)
        ensures
            match r {
                Some(v) => index < self@.locals.len() && v@ == self@.locals[index as int],
                None => index >= self@.locals.len(),
            },
    {
        proof {
            crate::value::lemma_views_of(self.locals@);
        }
        if index < self.locals.len() {
            Some(&self.locals[index])
        } else {
            None
        }
    }

    /// All local slots, in order.
    pub fn locals(&self) -> (r: &Vec<Value>)
        ensures
            views_of(r@) == self@.locals,
    {
        &self.locals
    }
}

} // verus!
