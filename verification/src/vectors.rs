//! Small helpers on vectors.

use vstd::prelude::*;

verus! {

/// The items in reverse order.
pub fn reversed<T>(items: Vec<T>) -> (stack: Vec<T>)
    ensures
        stack@.len() == items@.len(),
        forall|j: int|
            0 <= j < stack@.len() ==> #[trigger] stack@[j] == items@[items@.len() - 1 - j],
{
    let mut items = items;
    let mut stack: Vec<T> = Vec::new();
    let ghost all = items@;
    while items.len() > 0
        invariant
            items@.len() + stack@.len() == all.len(),
            forall|j: int| 0 <= j < items@.len() ==> items@[j] == all[j],
            forall|j: int| 0 <= j < stack@.len() ==> #[trigger] stack@[j] == all[all.len() - 1 - j],
        decreases items@.len(),
    {
        match items.pop() {
            Some(item) => {
                stack.push(item);
            },
            None => {},
        }
    }
    stack
}

} // verus!
