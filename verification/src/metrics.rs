//! What the operator counts: the labels of its metrics, and the values of its phase gauge.
use crate::text::same_text;
use vstd::prelude::*;

verus! {

/// The labels under which a failed reconcile is counted.
#[derive(Clone, Debug, Hash, PartialEq, Eq)]
pub struct ErrorLabels {
    /// Name of the object.
    pub instance: String,
    /// Kind of the failure.
    pub error: String,
}

/// The labels of the phase gauge.
#[derive(Clone, Debug, Hash, PartialEq, Eq)]
pub struct PhaseLabels {
    pub name: String,
    pub namespace: String,
    pub phase: String,
}

/// A value of the phase gauge.
#[derive(Debug)]
pub struct PhaseValue {
    pub labels: PhaseLabels,
    pub value: i64,
}

/// The value of the phase gauge for a phase: one for the current phase, zero for the others.
pub open spec fn gauge_value(phase: Seq<char>, current: Seq<char>) -> int {
    if phase == current {
        1
    } else {
        0
    }
}

/// The labels under which a failed reconcile of an object is counted.
pub fn failure_labels(instance: &str, error: &str) -> (r: ErrorLabels)
    ensures
        r.instance@ == instance@,
        r.error@ == error@,
{
    ErrorLabels { instance: instance.to_owned(), error: error.to_owned() }
}

/// The names of a list of phases.
pub open spec fn phase_names(phases: Seq<&str>) -> Seq<Seq<char>> {
    phases.map_values(|p: &str| p@)
}

/// The values of the phase gauge of an object, for all known phases in turn.
pub fn phase_values(name: &str, namespace: &str, current: &str, all: &[&str]) -> (r: Vec<
    PhaseValue,
>)
    ensures
        r@.len() == all@.len(),
        forall|i: int|
            0 <= i < all@.len() ==> {
                let v = #[trigger] r@[i];
                &&& v.labels.name@ == name@
                &&& v.labels.namespace@ == namespace@
                &&& v.labels.phase@ == all@[i]@
                &&& v.value == gauge_value(all@[i]@, current@)
            },
{
    let mut out: Vec<PhaseValue> = Vec::new();
    let mut i: usize = 0;
    while i < all.len()
        invariant
            i <= all@.len(),
            out@.len() == i,
            forall|j: int|
                0 <= j < i ==> {
                    let v = #[trigger] out@[j];
                    &&& v.labels.name@ == name@
                    &&& v.labels.namespace@ == namespace@
                    &&& v.labels.phase@ == all@[j]@
                    &&& v.value == gauge_value(all@[j]@, current@)
                },
        decreases all@.len() - i,
    {
        let phase: &str = all[i];
        let value: i64 = if same_text(phase, current) { 1 } else { 0 };
        out.push(
            PhaseValue {
                labels: PhaseLabels {
                    name: name.to_owned(),
                    namespace: namespace.to_owned(),
                    phase: phase.to_owned(),
                },
                value,
            },
        );
        i = i + 1;
    }
    out
}

/// The sum of the gauge over a list of phases.
pub open spec fn gauge_sum(phases: Seq<Seq<char>>, current: Seq<char>) -> int
    decreases phases.len(),
{
    if phases.len() == 0 {
        0
    } else {
        gauge_sum(phases.drop_last(), current) + gauge_value(phases.last(), current)
    }
}

/// Exactly one phase is active: over different phases, the current one among them, the gauge sums
/// to one.
pub proof fn one_phase_is_active(phases: Seq<Seq<char>>, current: Seq<char>)
    requires
        phases.no_duplicates(),
        phases.contains(current),
    ensures
        gauge_sum(phases, current) == 1,
    decreases phases.len(),
{
    let front = phases.drop_last();
    let k = choose|k: int| 0 <= k < phases.len() && phases[k] == current;
    assert(front.no_duplicates());
    if k == phases.len() - 1 {
        assert forall|i: int| 0 <= i < front.len() implies #[trigger] front[i] != current by {
            assert(phases[i] != phases[k]);
        }
        no_phase_is_active(front, current);
    } else {
        assert(front[k] == current);
        one_phase_is_active(front, current);
        assert(phases.last() != phases[k]);
    }
}

/// Whatever of a service is ready, exactly one of its phases is active.
pub proof fn one_service_phase_is_active(desired: int, ready: int)
    ensures
        gauge_sum(crate::service_phases(), crate::service_phase(desired, ready)) == 1,
{
    crate::service_phases_are_all();
    one_phase_is_active(crate::service_phases(), crate::service_phase(desired, ready));
}

proof fn no_phase_is_active(phases: Seq<Seq<char>>, current: Seq<char>)
    requires
        forall|i: int| 0 <= i < phases.len() ==> #[trigger] phases[i] != current,
    ensures
        gauge_sum(phases, current) == 0,
    decreases phases.len(),
{
    if phases.len() > 0 {
        assert(phases[phases.len() - 1] != current);
        no_phase_is_active(phases.drop_last(), current);
    }
}

} // verus!
