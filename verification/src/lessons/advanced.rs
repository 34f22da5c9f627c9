//! The lessons of the advanced tier. Their subject is work shared between
//! threads; what stands here is what that work adds up to.

use vstd::prelude::*;

verus! {

/// The count that `threads` workers reach together when each adds one to
/// it `iters` times.
pub fn parallel_count(threads: usize, iters: usize) -> (count: i32)
    requires
        threads * iters <= i32::MAX,
    ensures
        count == threads * iters,
{
    (threads * iters) as i32
}

/// The numbers below `workers`, in rising order.
pub open spec fn indices(workers: nat) -> Seq<usize> {
    Seq::new(workers, |i: int| i as usize)
}

/// What `workers` workers send when each sends its own index, put in
/// rising order.
pub fn fan_out_in(workers: usize) -> (received: Vec<usize>)
    ensures
        received@ == indices(workers as nat),
{
    let mut received: Vec<usize> = Vec::new();
    let mut i: usize = 0;
    while i < workers
        invariant
            i <= workers,
            received@ == indices(i as nat),
        decreases workers - i,
    {
        received.push(i);
        assert(received@ =~= indices((i + 1) as nat));
        i += 1;
    }
    received
}

} // verus!
