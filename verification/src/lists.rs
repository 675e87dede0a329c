//! Lists whose items are moved, not copied.

use vstd::prelude::*;

verus! {

/// The list, last item first.
pub fn reversed<T>(list: Vec<T>) -> (r: Vec<T>)
    ensures
        r@ == list@.reverse(),
{
    let mut rest: Vec<T> = list;
    let mut r: Vec<T> = Vec::new();
    assert(list@.take(list@.len() as int) =~= list@);
    assert(r@ =~= list@.skip(list@.len() as int).reverse());
    while rest.len() > 0
        invariant
            rest@.len() <= list@.len(),
            rest@ == list@.take(rest@.len() as int),
            r@ == list@.skip(rest@.len() as int).reverse(),
        decreases rest@.len(),
    {
        let ghost n = rest@.len() as int;
        match rest.pop() {
            Some(e) => {
                r.push(e);
                assert(rest@ =~= list@.take(n - 1));
                assert(r@ =~= list@.skip(n - 1).reverse());
            },
            None => {},
        }
    }
    assert(list@.skip(0) =~= list@);
    r
}

} // verus!
