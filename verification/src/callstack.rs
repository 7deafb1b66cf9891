//! The call stack: a fixed-capacity stack of return addresses, held in
//! `stack_stack::Stack<u16, 16>` and described in contracts by the sequence
//! of values it contains, bottom first.
use vstd::prelude::*;

verus! {

#[verifier::external_type_specification]
#[verifier::external_body]
#[verifier::reject_recursive_types(T)]
pub struct ExStack<T, const N: usize>(stack_stack::Stack<T, N>);

/// The values held by a call stack, bottom of the stack first.
pub uninterp spec fn stack_contents(s: stack_stack::Stack<u16, 16>) -> Seq<u16>;

/// Relies on stack_stack::Stack::new: creates an empty stack.
#[verifier::external_body]
pub(crate) fn stack_new() -> (s: stack_stack::Stack<u16, 16>)
    ensures
        stack_contents(s) == Seq::<u16>::empty(),
{
    stack_stack::Stack::new()
}

/// Relies on stack_stack::Stack::push: appends the value when the stack
/// holds fewer elements than its capacity (16), and hands the value back
/// in `Err` when the stack is full, leaving it unchanged.
#[verifier::external_body]
pub(crate) fn stack_push(s: &mut stack_stack::Stack<u16, 16>, v: u16) -> (r: Result<(), u16>)
    ensures
        stack_contents(*old(s)).len() < 16 ==> {
            &&& r == Ok::<(), u16>(())
            &&& stack_contents(*final(s)) == stack_contents(*old(s)).push(v)
        },
        stack_contents(*old(s)).len() >= 16 ==> {
            &&& r == Err::<(), u16>(v)
            &&& stack_contents(*final(s)) == stack_contents(*old(s))
        },
{
    s.push(v)
}

/// Relies on stack_stack::Stack::pop: removes and returns the most recently
/// pushed element, or returns None when the stack is empty.
#[verifier::external_body]
pub(crate) fn stack_pop(s: &mut stack_stack::Stack<u16, 16>) -> (r: Option<u16>)
    ensures
        stack_contents(*old(s)).len() > 0 ==> {
            &&& r == Some(stack_contents(*old(s)).last())
            &&& stack_contents(*final(s)) == stack_contents(*old(s)).drop_last()
        },
        stack_contents(*old(s)).len() == 0 ==> {
            &&& r == None::<u16>
            &&& stack_contents(*final(s)) == stack_contents(*old(s))
        },
{
    s.pop()
}

} // verus!
