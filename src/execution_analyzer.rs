//! Users whose executions look like multi-leg arbitrage.

use vstd::prelude::*;
use crate::decimal::Dec;

verus! {

#[derive(Debug, Clone)]
pub struct UserExecution {
    pub user_address: String,
    pub market_id: String,
    pub outcome_index: usize,
    pub amount: Dec,
    pub timestamp: u64,
}

/// The user traded the same market at least twice.
pub open spec fn trades_twice(execs: Seq<UserExecution>, user: Seq<char>) -> bool {
    exists|i: int, j: int|
        0 <= i < j < execs.len() && #[trigger] execs[i].user_address@ == user && #[trigger] execs[j].user_address@
            == user && execs[i].market_id@ == execs[j].market_id@
}

pub open spec fn listed(v: Seq<String>, s: Seq<char>) -> bool {
    exists|k: int| 0 <= k < v.len() && #[trigger] v[k]@ == s
}

pub struct ExecutionAnalyzer;

impl ExecutionAnalyzer {
    fn trades_twice_exec(executions: &[UserExecution], user: &String) -> (r: bool)
        ensures
            r == trades_twice(executions@, user@),
    {
        let n = executions.len();
        let mut i: usize = 0;
        while i < n
            invariant
                i <= n == executions@.len(),
                forall|p: int, q: int|
                    0 <= p < i && p < q < n ==> !(#[trigger] executions@[p].user_address@ == user@
                        && #[trigger] executions@[q].user_address@ == user@ && executions@[p].market_id@
                        == executions@[q].market_id@),
            decreases n - i,
        {
            if executions[i].user_address == *user {
                let mut j: usize = i + 1;
                while j < n
                    invariant
                        i < n == executions@.len(),
                        i + 1 <= j <= n,
                        executions@[i as int].user_address@ == user@,
                        forall|p: int, q: int|
                            0 <= p < i && p < q < n ==> !(#[trigger] executions@[p].user_address@ == user@
                                && #[trigger] executions@[q].user_address@ == user@ && executions@[p].market_id@
                                == executions@[q].market_id@),
                        forall|q: int|
                            i < q < j ==> !(#[trigger] executions@[q].user_address@ == user@
                                && executions@[i as int].market_id@ == executions@[q].market_id@),
                    decreases n - j,
                {
                    if executions[j].user_address == *user && executions[i].market_id == executions[j].market_id {
                        return true;
                    }
                    j = j + 1;
                }
            }
            i = i + 1;
        }
        false
    }

    fn is_listed(v: &Vec<String>, s: &String) -> (r: bool)
        ensures
            r == listed(v@, s@),
    {
        let mut k: usize = 0;
        while k < v.len()
            invariant
                k <= v.len(),
                forall|q: int| 0 <= q < k ==> #[trigger] v@[q]@ != s@,
            decreases v.len() - k,
        {
            if v[k] == *s {
                return true;
            }
            k = k + 1;
        }
        false
    }

    /// Each user who traded some market at least twice, once, in order of
    /// first appearance.
    pub fn analyze_executions(executions: &[UserExecution]) -> (r: Vec<String>)
        ensures
            forall|s: Seq<char>| listed(r@, s) <==> trades_twice(executions@, s),
            forall|a: int, b: int| 0 <= a < b < r.len() ==> #[trigger] r@[a]@ != #[trigger] r@[b]@,
    {
        let mut out: Vec<String> = Vec::new();
        let n = executions.len();
        let mut i: usize = 0;
        while i < n
            invariant
                i <= n == executions@.len(),
                forall|k: int| 0 <= k < out.len() ==> trades_twice(executions@, #[trigger] out@[k]@),
                forall|p: int|
                    0 <= p < i && trades_twice(executions@, #[trigger] executions@[p].user_address@) ==> listed(
                        out@,
                        executions@[p].user_address@,
                    ),
                forall|a: int, b: int| 0 <= a < b < out.len() ==> #[trigger] out@[a]@ != #[trigger] out@[b]@,
            decreases n - i,
        {
            let u = &executions[i].user_address;
            if !Self::is_listed(&out, u) && Self::trades_twice_exec(executions, u) {
                let ghost before = out@;
                out.push(u.clone());
                assert forall|p: int|
                    0 <= p < i + 1 && trades_twice(executions@, #[trigger] executions@[p].user_address@) implies listed(
                    out@,
                    executions@[p].user_address@,
                ) by {
                    if p < i {
                        let k = choose|k: int| 0 <= k < before.len() && #[trigger] before[k]@ == executions@[p].user_address@;
                        assert(out@[k] == before[k]);
                    } else {
                        assert(out@[before.len() as int]@ == executions@[p].user_address@);
                    }
                }
            }
            i = i + 1;
        }
        assert forall|s: Seq<char>| trades_twice(executions@, s) implies listed(out@, s) by {
            let (p, q) = choose|p: int, q: int|
                0 <= p < q < executions@.len() && #[trigger] executions@[p].user_address@ == s
                    && #[trigger] executions@[q].user_address@ == s && executions@[p].market_id@
                    == executions@[q].market_id@;
            assert(trades_twice(executions@, executions@[p].user_address@));
        }
        out
    }
}

} // verus!
