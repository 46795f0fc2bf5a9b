use crate::errors::Error;
use crate::stack::{drop_model, push_model, undo_model, Stack, StackModel};
use crate::value::lemma_stored_normalize_identity;
use vstd::prelude::*;

verus! {

/// What `dup` does: nothing on an empty stack, else the top cell pushed
/// again (with a fresh history snapshot, as every push takes one).
pub open spec fn dup_model(m: StackModel) -> StackModel {
    if m.values.len() == 0 {
        m
    } else {
        push_model(m, m.values.last())
    }
}

/// What `swap` does: nothing with fewer than two cells, else the top two
/// exchanged by dropping both and pushing them back in the other order.
pub open spec fn swap_model(m: StackModel) -> StackModel {
    if m.values.len() < 2 {
        m
    } else {
        let a = m.values[m.values.len() - 2];
        let b = m.values.last();
        push_model(push_model(drop_model(m, 2), b), a)
    }
}

/// Remove the top cell; a no-op on an empty stack. Never fails.
pub fn drop(stack: &mut Stack) -> (r: Result<(), Error>)
    requires
        old(stack).wf(),
    ensures
        final(stack).wf(),
        r == Ok::<(), Error>(()),
        final(stack)@ == drop_model(old(stack)@, 1),
{
    stack.drop(1);
    Ok(())
}

/// Push a copy of the top cell; a no-op on an empty stack. Never fails.
pub fn dup(stack: &mut Stack) -> (r: Result<(), Error>)
    requires
        old(stack).wf(),
    ensures
        final(stack).wf(),
        r == Ok::<(), Error>(()),
        final(stack)@ == dup_model(old(stack)@),
{
    let values = stack.get_values(1);
    match values {
        Some(values) => {
            proof {
                lemma_stored_normalize_identity(old(stack)@.values.last());
            }
            stack.push(values[0]);
        },
        None => {},
    }
    Ok(())
}

/// Exchange the top two cells; a no-op with fewer than two. Never fails.
pub fn swap(stack: &mut Stack) -> (r: Result<(), Error>)
    requires
        old(stack).wf(),
    ensures
        final(stack).wf(),
        r == Ok::<(), Error>(()),
        final(stack)@ == swap_model(old(stack)@),
{
    let values = stack.get_values(2);
    match values {
        Some(values) => {
            proof {
                lemma_stored_normalize_identity(old(stack)@.values.last());
                lemma_stored_normalize_identity(
                    old(stack)@.values[old(stack)@.values.len() - 2],
                );
            }
            stack.drop(2);
            stack.push(values[1]);
            stack.push(values[0]);
        },
        None => {},
    }
    Ok(())
}

/// Restore the stack to its newest remembered state; a no-op with an empty
/// history. Never fails.
pub fn undo(stack: &mut Stack) -> (r: Result<(), Error>)
    requires
        old(stack).wf(),
    ensures
        final(stack).wf(),
        r == Ok::<(), Error>(()),
        final(stack)@ == undo_model(old(stack)@),
{
    stack.undo();
    Ok(())
}

} // verus!
