use vstd::prelude::*;

use crate::move_box::{lemma_no_leak, MoveBox};

verus! {

/// One call on a handle, as it appears in a sequence of calls.
pub enum Step {
    Relocate,
    Access,
}

/// `post` is what the call named by `step` makes of `pre`, as that call's own
/// postcondition states it (`relocate`, or `read` for an access).
pub open spec fn step_holds<T>(step: Step, pre: MoveBox<T>, post: MoveBox<T>) -> bool {
    match step {
        Step::Relocate => MoveBox::relocated(pre, post),
        Step::Access => MoveBox::resolved(pre, post),
    }
}

/// Number of relocations in a sequence of calls.
pub open spec fn relocation_count(steps: Seq<Step>) -> nat
    decreases steps.len(),
{
    if steps.len() == 0 {
        0
    } else {
        relocation_count(steps.drop_last()) + if steps.last() is Relocate {
            1nat
        } else {
            0nat
        }
    }
}

/// Calls `j` and `j + 1` of `steps` are both relocations.
pub open spec fn relocates_twice_at(steps: Seq<Step>, j: int) -> bool {
    steps[j] is Relocate && steps[j + 1] is Relocate
}

/// Along any sequence of relocations and accesses with an access between any
/// two relocations, every relocation is admitted, the value never changes,
/// one record is allocated per relocation and every allocation not yet freed
/// is a record the handle owns.
pub proof fn lemma_value_preserved<T>(states: Seq<MoveBox<T>>, steps: Seq<Step>)
    requires
        states.len() == steps.len() + 1,
        states[0].wf(),
        steps.len() > 0 && steps[0] is Relocate ==> !states[0].is_stale(),
        forall|j: int| 0 <= j < steps.len() - 1 ==> !(#[trigger] relocates_twice_at(steps, j)),
        forall|i: int| 0 <= i < steps.len() ==> step_holds(#[trigger] steps[i], states[i], states[i + 1]),
    ensures
        forall|i: int| 0 <= i < steps.len() && #[trigger] steps[i] is Relocate ==> !states[i].is_stale(),
        forall|i: int| 0 <= i < states.len() ==> (#[trigger] states[i]).wf() && states[i].value() == states[0].value(),
        states.last().allocations() == states[0].allocations() + relocation_count(steps),
        states.last().allocations() == states.last().deallocations() + states.last().live_records(),
    decreases steps.len(),
{
    if steps.len() > 0 {
        let n = steps.len() - 1;
        let s2 = states.drop_last();
        let p2 = steps.drop_last();
        assert forall|i: int| 0 <= i < p2.len() implies step_holds(#[trigger] p2[i], s2[i], s2[i + 1]) by {
            assert(step_holds(steps[i], states[i], states[i + 1]));
        }
        assert forall|j: int| 0 <= j < p2.len() - 1 implies !(#[trigger] relocates_twice_at(p2, j)) by {
            assert(!relocates_twice_at(steps, j));
        }
        lemma_value_preserved(s2, p2);
        assert(step_holds(steps[n], states[n], states[n + 1]));
        assert(s2[n] == states[n]);
        if steps[n] is Relocate && n > 0 {
            assert(!relocates_twice_at(steps, n - 1));
            assert(step_holds(steps[n - 1], states[n - 1], states[n]));
        }
        assert(p2 == steps.drop_last());
        lemma_no_leak(&states[n + 1]);
        assert forall|i: int| 0 <= i < states.len() implies (#[trigger] states[i]).wf() && states[i].value() == states[0].value() by {
            if i < n + 1 {
                assert(s2[i] == states[i]);
            }
        }
        assert forall|i: int| 0 <= i < steps.len() && #[trigger] steps[i] is Relocate implies !states[i].is_stale() by {
            if i < n {
                assert(p2[i] == steps[i]);
                assert(s2[i] == states[i]);
            }
        }
    } else {
        lemma_no_leak(&states[0]);
    }
}

} // verus!
