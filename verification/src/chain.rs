//! The chain of steps: putting the declared steps in order, newest first,
//! and saying what is wrong when they do not form one chain.

use vstd::prelude::*;
use crate::model::{steps_view, ChainFault, MigrationComment, StepView};

verus! {

/// The version that is reached after `k` steps of the path, walking
/// backwards from the current version.
pub open spec fn version_at(
    current: Seq<char>,
    steps: Seq<StepView>,
    path: Seq<usize>,
    k: int,
) -> Seq<char> {
    if k == 0 {
        current
    } else {
        steps[path[k - 1] as int].from
    }
}

/// Whether the path walks backwards from the current version along the
/// steps, each step leading to the version reached so far, and never comes
/// to a version twice.
pub open spec fn linked(current: Seq<char>, steps: Seq<StepView>, path: Seq<usize>) -> bool {
    &&& forall|k: int|
        0 <= k < path.len() ==> (#[trigger] path[k]) < steps.len() && steps[path[k] as int].to
            == version_at(current, steps, path, k)
    &&& forall|a: int, b: int|
        0 <= a < b <= path.len() ==> #[trigger] version_at(current, steps, path, a)
            != #[trigger] version_at(current, steps, path, b)
}

/// Whether the path puts all the steps into one chain that ends at the
/// current version.
pub open spec fn is_chain(current: Seq<char>, steps: Seq<StepView>, path: Seq<usize>) -> bool {
    linked(current, steps, path) && path.len() == steps.len()
}

/// Whether two steps lead to the same version.
pub open spec fn duplicate_target(steps: Seq<StepView>) -> bool {
    exists|i: int, j: int|
        0 <= i < j < steps.len() && (#[trigger] steps[i]).to == (#[trigger] steps[j]).to
}

/// Whether the walk along the path, continued by step `i`, comes back to a
/// version that it has been at.
pub open spec fn revisits(
    current: Seq<char>,
    steps: Seq<StepView>,
    path: Seq<usize>,
    i: int,
) -> bool {
    &&& linked(current, steps, path)
    &&& path.len() < steps.len()
    &&& 0 <= i < steps.len()
    &&& steps[i].to == version_at(current, steps, path, path.len() as int)
    &&& exists|a: int|
        0 <= a <= path.len() && #[trigger] version_at(current, steps, path, a) == steps[i].from
}

/// Whether the walk along the path ends before all the steps are used,
/// because no step leads to the version it has reached.
pub open spec fn stops_short(current: Seq<char>, steps: Seq<StepView>, path: Seq<usize>) -> bool {
    &&& linked(current, steps, path)
    &&& path.len() < steps.len()
    &&& forall|i: int|
        0 <= i < steps.len() ==> (#[trigger] steps[i]).to != version_at(
            current,
            steps,
            path,
            path.len() as int,
        )
}

/// What a fault says of the steps.
pub open spec fn fault_holds(current: Seq<char>, steps: Seq<StepView>, fault: ChainFault) -> bool {
    match fault {
        ChainFault::DuplicateTarget => duplicate_target(steps),
        ChainFault::Cycle => !duplicate_target(steps) && exists|path: Seq<usize>, i: int|
            revisits(current, steps, path, i),
        ChainFault::Gap => !duplicate_target(steps) && exists|path: Seq<usize>|
            stops_short(current, steps, path),
        ChainFault::ShapeMismatch => false,
    }
}

fn has_duplicate_target(steps: &Vec<MigrationComment>) -> (r: bool)
    ensures
        r == duplicate_target(steps_view(steps@)),
{
    let ghost sv = steps_view(steps@);
    let mut i: usize = 0;
    while i < steps.len()
        invariant
            i <= steps.len(),
            sv == steps_view(steps@),
            forall|a: int, b: int|
                0 <= a < b < steps.len() && a < i ==> (#[trigger] sv[a]).to != (#[trigger] sv[b]).to,
        decreases steps.len() - i,
    {
        let mut j: usize = i + 1;
        while j < steps.len()
            invariant
                i < j <= steps.len(),
                sv == steps_view(steps@),
                forall|b: int| i < b < j ==> sv[i as int].to != (#[trigger] sv[b]).to,
            decreases steps.len() - j,
        {
            if steps[i].to == steps[j].to {
                assert(sv[i as int].to == sv[j as int].to);
                return true;
            }
            j = j + 1;
        }
        i = i + 1;
    }
    false
}

fn find_step(steps: &Vec<MigrationComment>, version: &String) -> (r: Option<usize>)
    ensures
        match r {
            Some(i) => i < steps.len() && steps_view(steps@)[i as int].to == version@,
            None => forall|i: int|
                0 <= i < steps.len() ==> (#[trigger] steps_view(steps@)[i]).to != version@,
        },
{
    let mut i: usize = 0;
    while i < steps.len()
        invariant
            i <= steps.len(),
            forall|j: int| 0 <= j < i ==> (#[trigger] steps_view(steps@)[j]).to != version@,
        decreases steps.len() - i,
    {
        if steps[i].to == *version {
            return Some(i);
        }
        i = i + 1;
    }
    None
}

fn seen(current: &String, steps: &Vec<MigrationComment>, path: &Vec<usize>, version: &String) -> (r:
    bool)
    requires
        forall|k: int| 0 <= k < path.len() ==> (#[trigger] path@[k]) < steps.len(),
    ensures
        r == exists|a: int|
            0 <= a <= path.len() && #[trigger] version_at(
                current@,
                steps_view(steps@),
                path@,
                a,
            ) == version@,
{
    let ghost sv = steps_view(steps@);
    if *current == *version {
        assert(version_at(current@, sv, path@, 0) == version@);
        return true;
    }
    let mut k: usize = 0;
    while k < path.len()
        invariant
            k <= path.len(),
            sv == steps_view(steps@),
            current@ != version@,
            forall|k: int| 0 <= k < path.len() ==> (#[trigger] path@[k]) < steps.len(),
            forall|a: int| 0 <= a <= k ==> #[trigger] version_at(current@, sv, path@, a) != version@,
        decreases path.len() - k,
    {
        if steps[path[k]].from == *version {
            assert(version_at(current@, sv, path@, k + 1) == version@);
            return true;
        }
        k = k + 1;
    }
    false
}

/// Puts the steps in order, newest first: the step that leads to the
/// current version, then the step that leads to the version that one came
/// from, and so on. The result holds the positions of the steps in that
/// order. Fails when two steps lead to the same version, when the walk
/// comes to a version twice, or when it ends before every step is used.
pub fn order_chain(current: &str, steps: &Vec<MigrationComment>) -> (r: Result<Vec<usize>, ChainFault>)
    ensures
        match r {
            Ok(path) => is_chain(current@, steps_view(steps@), path@),
            Err(fault) => fault_holds(current@, steps_view(steps@), fault),
        },
{
    let ghost sv = steps_view(steps@);
    if has_duplicate_target(steps) {
        return Err(ChainFault::DuplicateTarget);
    }
    let start = current.to_owned();
    let mut path: Vec<usize> = Vec::new();
    let mut version = current.to_owned();
    while path.len() < steps.len()
        invariant
            start@ == current@,
            sv == steps_view(steps@),
            !duplicate_target(sv),
            linked(current@, sv, path@),
            path.len() <= steps.len(),
            version@ == version_at(current@, sv, path@, path.len() as int),
        decreases steps.len() - path.len(),
    {
        match find_step(steps, &version) {
            None => {
                assert(stops_short(current@, sv, path@));
                return Err(ChainFault::Gap);
            },
            Some(i) => {
                if seen(&start, steps, &path, &steps[i].from) {
                    assert(revisits(current@, sv, path@, i as int));
                    return Err(ChainFault::Cycle);
                }
                let ghost before = path@;
                path.push(i);
                version = steps[i].from.clone();
                proof {
                    let n = before.len() as int;
                    assert forall|k: int| 0 <= k <= n implies version_at(
                        current@,
                        sv,
                        path@,
                        k,
                    ) == version_at(current@, sv, before, k) by {
                        if k > 0 {
                            assert(path@[k - 1] == before[k - 1]);
                        }
                    }
                    assert forall|k: int| 0 <= k < path@.len() implies (#[trigger] path@[k])
                        < sv.len() && sv[path@[k] as int].to == version_at(
                        current@,
                        sv,
                        path@,
                        k,
                    ) by {
                        if k < n {
                            assert(path@[k] == before[k]);
                        }
                    }
                    assert forall|a: int, b: int| 0 <= a < b <= path@.len() implies #[trigger] version_at(
                        current@,
                        sv,
                        path@,
                        a,
                    ) != #[trigger] version_at(current@, sv, path@, b) by {
                        if b <= n {
                            assert(version_at(current@, sv, before, a) != version_at(
                                current@,
                                sv,
                                before,
                                b,
                            ));
                        } else {
                            assert(version_at(current@, sv, before, a) != sv[i as int].from);
                        }
                    }
                }
            },
        }
    }
    Ok(path)
}

/// Where no two steps lead to the same version, two walks from the current
/// version take the same steps as far as both go.
pub proof fn lemma_walks_agree(
    current: Seq<char>,
    steps: Seq<StepView>,
    p: Seq<usize>,
    q: Seq<usize>,
    k: int,
)
    requires
        !duplicate_target(steps),
        linked(current, steps, p),
        linked(current, steps, q),
        0 <= k <= p.len(),
        k <= q.len(),
    ensures
        forall|j: int| 0 <= j < k ==> p[j] == q[j],
        version_at(current, steps, p, k) == version_at(current, steps, q, k),
    decreases k,
{
    if k > 0 {
        lemma_walks_agree(current, steps, p, q, k - 1);
        let a = p[k - 1] as int;
        let b = q[k - 1] as int;
        assert(steps[a].to == version_at(current, steps, p, k - 1));
        assert(steps[b].to == version_at(current, steps, q, k - 1));
        if a < b {
            assert(steps[a].to == steps[b].to);
        } else if b < a {
            assert(steps[b].to == steps[a].to);
        }
    }
}

/// A chain uses every step: each position of a step occurs in the order.
pub proof fn lemma_chain_covers(
    current: Seq<char>,
    steps: Seq<StepView>,
    order: Seq<usize>,
    i: int,
) -> (k: int)
    requires
        is_chain(current, steps, order),
        0 <= i < steps.len(),
    ensures
        0 <= k < order.len(),
        order[k] == i,
{
    let n = steps.len() as int;
    let ints = Seq::new(order.len(), |k: int| order[k] as int);
    assert forall|a: int, b: int| 0 <= a < ints.len() && 0 <= b < ints.len() && a != b implies ints[a]
        != ints[b] by {
        let lo = if a < b { a } else { b };
        let hi = if a < b { b } else { a };
        assert(steps[order[lo] as int].to == version_at(current, steps, order, lo));
        assert(steps[order[hi] as int].to == version_at(current, steps, order, hi));
    }
    ints.unique_seq_to_set();
    vstd::seq_lib::seq_to_set_is_finite(ints);
    vstd::set_lib::lemma_int_range(0, n);
    let range = vstd::set_lib::set_int_range(0, n);
    assert forall|x: int| ints.to_set().contains(x) implies range.contains(x) by {
        let k = choose|k: int| 0 <= k < ints.len() && ints[k] == x;
        assert(order[k] < steps.len());
    }
    vstd::set_lib::lemma_subset_equality(ints.to_set(), range);
    assert(range.contains(i));
    assert(ints.to_set().contains(i));
    let k = choose|k: int| 0 <= k < ints.len() && ints[k] == i;
    k
}

/// In a chain no two steps lead to the same version.
pub proof fn lemma_chain_has_distinct_targets(
    current: Seq<char>,
    steps: Seq<StepView>,
    order: Seq<usize>,
)
    requires
        is_chain(current, steps, order),
    ensures
        !duplicate_target(steps),
{
    if duplicate_target(steps) {
        let (i, j) = choose|i: int, j: int|
            0 <= i < j < steps.len() && (#[trigger] steps[i]).to == (#[trigger] steps[j]).to;
        let a = lemma_chain_covers(current, steps, order, i);
        let b = lemma_chain_covers(current, steps, order, j);
        assert(steps[order[a] as int].to == version_at(current, steps, order, a));
        assert(steps[order[b] as int].to == version_at(current, steps, order, b));
        if a < b {
            assert(version_at(current, steps, order, a) != version_at(current, steps, order, b));
        } else {
            assert(version_at(current, steps, order, b) != version_at(current, steps, order, a));
        }
    }
}

/// **One chain.** Where the steps can be put in one chain, there is one
/// way only to do it, and none of the faults holds of them: putting them
/// in order succeeds exactly where a chain exists.
pub proof fn law_chain_is_unique(
    current: Seq<char>,
    steps: Seq<StepView>,
    order: Seq<usize>,
    other: Seq<usize>,
)
    requires
        is_chain(current, steps, order),
    ensures
        forall|fault: ChainFault| !fault_holds(current, steps, fault),
        is_chain(current, steps, other) ==> other == order,
{
    lemma_chain_has_distinct_targets(current, steps, order);
    lemma_chain_has_no_fault(current, steps, order);
    if is_chain(current, steps, other) {
        lemma_walks_agree(current, steps, order, other, order.len() as int);
        assert(other =~= order);
    }
}

/// A chain neither comes to a version twice nor ends before its last step:
/// where the steps can be put in one chain and no two of them lead to the
/// same version, no walk revisits a version and none stops short.
pub proof fn lemma_chain_has_no_fault(
    current: Seq<char>,
    steps: Seq<StepView>,
    order: Seq<usize>,
)
    requires
        is_chain(current, steps, order),
        !duplicate_target(steps),
    ensures
        !fault_holds(current, steps, ChainFault::Cycle),
        !fault_holds(current, steps, ChainFault::Gap),
{
    assert forall|path: Seq<usize>, i: int| !revisits(current, steps, path, i) by {
        if revisits(current, steps, path, i) {
            let n = path.len() as int;
            lemma_walks_agree(current, steps, path, order, n);
            let next = order[n] as int;
            assert(steps[next].to == version_at(current, steps, order, n));
            if next < i {
                assert(steps[next].to == steps[i].to);
            } else if i < next {
                assert(steps[i].to == steps[next].to);
            }
            assert(version_at(current, steps, order, n + 1) == steps[i].from);
            let a = choose|a: int|
                0 <= a <= path.len() && #[trigger] version_at(current, steps, path, a)
                    == steps[i].from;
            lemma_walks_agree(current, steps, path, order, a);
            assert(version_at(current, steps, order, a) != version_at(current, steps, order, n + 1));
        }
    }
    assert forall|path: Seq<usize>| !stops_short(current, steps, path) by {
        if stops_short(current, steps, path) {
            let n = path.len() as int;
            lemma_walks_agree(current, steps, path, order, n);
            let next = order[n] as int;
            assert(steps[next].to == version_at(current, steps, order, n));
        }
    }
}

} // verus!
