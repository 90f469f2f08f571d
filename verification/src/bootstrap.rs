//! Start-up helpers: distributing endpoints over worker instances and
//! settling the identifier an account runs under.

use vstd::prelude::*;

use crate::text::{trim_str, trimmed};

verus! {

/// Assigns each of `n` worker instances a network endpoint, round-robin
/// over the pool.
pub fn round_robin_endpoints(urls: &Vec<String>, n: usize) -> (r: Vec<String>)
    requires
        urls@.len() > 0,
    ensures
        r@.len() == n,
        forall|i: int| 0 <= i < n ==> #[trigger] r@[i] == urls@[i % urls@.len() as int],
{
    let m = urls.len();
    let mut r: Vec<String> = Vec::new();
    let mut i: usize = 0;
    while i < n
        invariant
            i <= n,
            m == urls@.len(),
            m > 0,
            r@.len() == i,
            forall|k: int| 0 <= k < i ==> #[trigger] r@[k] == urls@[k % m as int],
        decreases n - i,
    {
        r.push(urls[i % m].clone());
        i += 1;
    }
    r
}

/// The identifier an account runs under: the resolver's output, trimmed,
/// when resolution succeeded; empty otherwise — a resolver failure is
/// tolerated, not fatal.
pub fn resolve_identifier(resolved: bool, output: &str) -> (id: String)
    ensures
        resolved ==> id@ == trimmed(output@),
        !resolved ==> id@ == Seq::<char>::empty(),
{
    if resolved {
        trim_str(output)
    } else {
        String::new()
    }
}

} // verus!
