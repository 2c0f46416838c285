//! The request counter: one cell, incremented once per request.

use vstd::prelude::*;

verus! {

/// Model of the server's request counter: starts at zero and grows by exactly
/// one each time a request is served, so the n-th request observes the value n.
pub struct RequestCounter {
    pub count: u64,
}

impl RequestCounter {
    /// A fresh counter, as the server holds at startup.
    pub fn new() -> (r: RequestCounter)
        ensures
            r.count == 0,
    {
        RequestCounter { count: 0 }
    }

    /// Serve one request: increment the counter and return the new value.
    pub fn next(&mut self) -> (r: u64)
        requires
            old(self).count < u64::MAX,
        ensures
            final(self).count == old(self).count + 1,
            r == final(self).count,
    {
        self.count = self.count + 1;
        self.count
    }
}

/// The values the counter hands out over the first `n` requests, in order:
/// 1, 2, ..., n.
pub open spec fn count_values(n: nat) -> Seq<int> {
    Seq::new(n, |i: int| i + 1)
}

/// Over `n` requests the counter hands out each of 1, ..., n exactly once:
/// no duplicates, no gaps.
pub proof fn lemma_count_values_exact(n: nat)
    ensures
        count_values(n).no_duplicates(),
        count_values(n).to_set() =~= Set::new(|v: int| 1 <= v <= n),
{
    let s = count_values(n);
    assert forall|v: int| #[trigger] s.to_set().contains(v) implies 1 <= v <= n by {
        let i = choose|i: int| 0 <= i < s.len() && s[i] == v;
    }
    assert forall|v: int| 1 <= v <= n implies #[trigger] s.to_set().contains(v) by {
        assert(s[v - 1] == v);
        assert(s.contains(v));
    }
}

} // verus!
