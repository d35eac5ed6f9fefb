//! Scheduling groups: which engines of a subscription are driven by the
//! same runner.

use vstd::prelude::*;
use crate::interface::SchedulingMode;

verus! {

/// The group of the engine of index `engine` under `mode`: its own group
/// when each engine is dedicated one, the one group of the subscription
/// when the subscription is kept compact, and the groups in turn when the
/// engines are spread over `runners` runners.
pub open spec fn group_of(mode: SchedulingMode, engine: int, runners: int) -> int {
    match mode {
        SchedulingMode::Dedicated => engine,
        SchedulingMode::Compact => 0,
        SchedulingMode::Spread => engine % runners,
    }
}

/// Assigns each of `engines` engines to a scheduling group. Every engine is
/// in exactly one group: the result names one group for each.
pub fn plan(mode: SchedulingMode, engines: usize, runners: usize) -> (groups: Vec<usize>)
    requires
        runners > 0,
    ensures
        groups@.len() == engines,
        forall|i: int|
            0 <= i < engines ==> #[trigger] groups@[i] == group_of(mode, i, runners as int),
        mode == SchedulingMode::Spread ==> forall|i: int|
            0 <= i < engines ==> #[trigger] groups@[i] < runners,
{
    let mut groups: Vec<usize> = Vec::new();
    let mut i: usize = 0;
    while i < engines
        invariant
            i <= engines,
            runners > 0,
            groups@.len() == i,
            forall|k: int| 0 <= k < i ==> #[trigger] groups@[k] == group_of(mode, k, runners as int),
            mode == SchedulingMode::Spread ==> forall|k: int|
                0 <= k < i ==> #[trigger] groups@[k] < runners,
        decreases engines - i,
    {
        let group = match mode {
            SchedulingMode::Dedicated => i,
            SchedulingMode::Compact => 0,
            SchedulingMode::Spread => i % runners,
        };
        groups.push(group);
        i += 1;
    }
    groups
}

/// Number of groups that `plan` uses.
pub fn group_count(mode: SchedulingMode, engines: usize, runners: usize) -> (n: usize)
    requires
        runners > 0,
    ensures
        forall|i: int|
            0 <= i < engines ==> 0 <= #[trigger] group_of(mode, i, runners as int) < n,
        engines == 0 ==> n == 0,
        engines > 0 ==> n == match mode {
            SchedulingMode::Dedicated => engines,
            SchedulingMode::Compact => 1,
            SchedulingMode::Spread => if engines < runners {
                engines
            } else {
                runners
            },
        },
{
    if engines == 0 {
        return 0;
    }
    match mode {
        SchedulingMode::Dedicated => engines,
        SchedulingMode::Compact => 1,
        SchedulingMode::Spread => {
            let n = if engines < runners {
                engines
            } else {
                runners
            };
            proof {
                assert forall|i: int| 0 <= i < engines implies 0 <= #[trigger] group_of(
                    mode,
                    i,
                    runners as int,
                ) < n by {
                    if engines < runners {
                        assert(i % (runners as int) == i) by (nonlinear_arith)
                            requires
                                0 <= i < runners,
                        ;
                    }
                }
            }
            n
        },
    }
}

} // verus!
