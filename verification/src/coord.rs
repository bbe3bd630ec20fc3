//! The fetch pool's coordination rules: how many workers a run gets, and the
//! one locked step a worker takes on the shared queue. The pool is sized at
//! dispatch time and never larger than the number of urls; removal order
//! from the queue is unspecified, and correctness never depends on it.

use vstd::prelude::*;

verus! {

/// The number of workers a run dispatches: the concurrency cap, but never
/// more than there are urls to fetch.
pub open spec fn worker_count_spec(concurrency: u16, n_urls: usize) -> int {
    if (concurrency as int) < (n_urls as int) {
        concurrency as int
    } else {
        n_urls as int
    }
}

/// Sizes the pool for one run from the configured cap (a positive integer)
/// and the number of feed urls.
pub fn worker_count(concurrency: u16, n_urls: usize) -> (r: usize)
    requires
        concurrency >= 1,
    ensures
        r == worker_count_spec(concurrency, n_urls),
        r <= n_urls,
        n_urls > 0 ==> r >= 1,
{
    let c = concurrency as usize;
    if c < n_urls {
        c
    } else {
        n_urls
    }
}

/// With a concurrency cap of one the pool holds at most one worker, so
/// fetches happen strictly one at a time: no two fetch invocations can
/// overlap when only one worker exists to make them.
pub proof fn lemma_single_worker(n_urls: usize)
    ensures
        worker_count_spec(1, n_urls) <= 1,
{
}

/// One locked queue step: a worker removes one url, or learns the queue is
/// drained and stops. The implementation takes the most recently queued url;
/// no caller may rely on that order.
pub fn next_url(queue: &mut Vec<String>) -> (r: Option<String>)
    ensures
        old(queue)@.len() == 0 ==> r is None && final(queue)@ == old(queue)@,
        old(queue)@.len() > 0 ==> (r matches Some(u) && u == old(queue)@.last() && final(queue)@
            == old(queue)@.drop_last()),
{
    queue.pop()
}

} // verus!
