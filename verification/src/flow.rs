//! The shape of an operation that alternates between deciding and doing.
//!
//! A decision is a function of what has been observed so far. Its answer is a [`Step`]: the next
//! thing to do and report back, or the final result.

use vstd::prelude::*;

verus! {

/// The next thing to do, or the end of the operation.
pub enum Step<A, R> {
    /// Do this, record what was observed, and ask for the next step.
    Ask(A),
    /// The operation is over, with a result or with the message of its error.
    Done(Result<R, String>),
}

/// One for what has not been observed, zero for what has.
pub open spec fn unknown<T>(seen: Option<T>) -> nat {
    if seen is None {
        1
    } else {
        0
    }
}

/// A [`Step`] with its texts as character sequences.
#[verifier::ext_equal]
pub enum StepView<A, R> {
    Ask(A),
    Done(Result<R, Seq<char>>),
}

impl<A: View, R: View> View for Step<A, R> {
    type V = StepView<A::V, R::V>;

    open spec fn view(&self) -> StepView<A::V, R::V> {
        match self {
            Step::Ask(a) => StepView::Ask(a@),
            Step::Done(Ok(r)) => StepView::Done(Ok(r@)),
            Step::Done(Err(e)) => StepView::Done(Err(e@)),
        }
    }
}

} // verus!
