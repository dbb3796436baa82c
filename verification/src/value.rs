//! Run-time values held in registers and local-variable slots.
use vstd::prelude::*;

use crate::block::{Block, BlockView};

verus! {

/// The mathematical shape of a run-time value.
#[verifier::ext_equal]
pub enum ValueView {
    Nil,
    Boolean(bool),
    Integer(i64),
    Str(Seq<char>),
    Array(Seq<ValueView>),
    Block(BlockView),
}

/// A value a register or a local slot can hold.
#[derive(PartialEq, Eq, Debug)]
pub enum Value {
    Nil,
    Boolean(bool),
    Integer(i64),
    Str(String),
    Array(Vec<Value>),
    Block(Block),
}

impl View for Value {
    type V = ValueView;

    open spec fn view(&self) -> ValueView
        decreases self,
    {
        match self {
            Value::Nil => ValueView::Nil,
            Value::Boolean(b) => ValueView::Boolean(*b),
            Value::Integer(i) => ValueView::Integer(*i),
            Value::Str(s) => ValueView::Str(s@),
            Value::Array(items) => ValueView::Array(views_of(items@)),
            Value::Block(b) => ValueView::Block(b@),
        }
    }
}

/// The views of a sequence of values, in order.
pub open spec fn views_of(s: Seq<Value>) -> Seq<ValueView>
    decreases s,
{
    if s.len() == 0 {
        Seq::empty()
    } else {
        views_of(s.drop_last()).push(s.last()@)
    }
}

/// `views_of` maps the view over the sequence element by element.
pub proof fn lemma_views_of(s: Seq<Value>)
    ensures
        views_of(s).len() == s.len(),
        forall|i: int|
            #![trigger views_of(s)[i]]
            #![trigger s[i]@]
            0 <= i < s.len() ==> views_of(s)[i] == s[i]@,
    decreases s,
{
    if s.len() > 0 {
        lemma_views_of(s.drop_last());
        assert(views_of(s) == views_of(s.drop_last()).push(s.last()@));
        assert forall|i: int| 0 <= i < s.len() implies views_of(s)[i] == #[trigger] s[i]@ by {
            if i < s.len() - 1 {
                assert(views_of(s)[i] == views_of(s.drop_last())[i]);
                assert(s.drop_last()[i] == s[i]);
                assert(s.drop_last()[i]@ == s[i]@);
            } else {
                assert(views_of(s)[i] == s.last()@);
                assert(s.last() == s[i]);
            }
        }
    }
}

impl Clone for Value {
    fn clone(&self) -> (res: Self)
        ensures
            res@ == self@,
        decreases self,
    {
        match self {
            Value::Nil => Value::Nil,
            Value::Boolean(b) => Value::Boolean(*b),
            Value::Integer(i) => Value::Integer(*i),
            Value::Str(s) => Value::Str(s.clone()),
            Value::Block(b) => Value::Block(b.clone()),
            Value::Array(items) => {
                let mut copied: Vec<Value> = Vec::new();
                let mut i: usize = 0;
                while i < items.len()
                    invariant
                        i <= items.len(),
                        copied@.len() == i as int,
                        forall|j: int| 0 <= j < i as int ==> #[trigger] copied@[j]@ == items@[j]@,
                    decreases items.len() - i,
                {
                    proof {
                        assert(decreases_to!(*self => self->Array_0));
                        assert(decreases_to!(self->Array_0 => items@));
                        assert(decreases_to!(items@ => items@[i as int]));
                    }
                    copied.push(items[i].clone());
                    i = i + 1;
                }
                let res = Value::Array(copied);
                proof {
                    lemma_views_of(copied@);
                    lemma_views_of(items@);
                    assert forall|k: int| 0 <= k < items@.len()
                        implies views_of(copied@)[k] == views_of(items@)[k] by {
                        assert(copied@[k]@ == items@[k]@);
                    }
                    assert(views_of(copied@) =~= views_of(items@));
                }
                res
            },
        }
    }
}

} // verus!
