//! The up-to-date oracle: combines marker staleness with file-timestamp
//! comparison into a single skip/act verdict.
//!
//! A file's modification time is carried as `Option<u64>`: `None` means the
//! file is missing, `Some(t)` that it exists with timestamp `t`. The oracle
//! never skips when forced, when the marker is stale, when any output is
//! missing, or when any input is newer than some output. A missing input is
//! treated as changed, so it also forces the action; an empty input list is
//! vacuously not newer.

use vstd::prelude::*;

verus! {

/// Every timestamp in the list belongs to a file that exists.
pub open spec fn all_present(ts: Seq<Option<u64>>) -> bool {
    forall|i: int| 0 <= i < ts.len() ==> ts[i] is Some
}

/// Some input is strictly newer than some output (both existing).
pub open spec fn inputs_newer(inputs: Seq<Option<u64>>, outputs: Seq<Option<u64>>) -> bool {
    exists|i: int, j: int|
        0 <= i < inputs.len() && 0 <= j < outputs.len() && inputs[i] is Some && outputs[j] is Some
            && inputs[i]->0 > outputs[j]->0
}

/// True when the step may be skipped: no override is set, the marker
/// is fresh, every file on both sides exists, and no input is strictly
/// newer than any output.
pub open spec fn spec_should_skip(
    force: bool,
    marker_is_stale: bool,
    inputs: Seq<Option<u64>>,
    outputs: Seq<Option<u64>>,
) -> bool {
    &&& !force
    &&& !marker_is_stale
    &&& all_present(outputs)
    &&& all_present(inputs)
    &&& !inputs_newer(inputs, outputs)
}

/// Decides whether a step may be skipped.
///
/// The two staleness signals (marker freshness, passed in as
/// `marker_is_stale`, and the timestamp comparison made here) are combined
/// conservatively: either one reporting staleness forces the action.
pub fn should_skip(
    force: bool,
    marker_is_stale: bool,
    inputs: &Vec<Option<u64>>,
    outputs: &Vec<Option<u64>>,
) -> (r: bool)
    ensures
        r == spec_should_skip(force, marker_is_stale, inputs@, outputs@),
{
    if force || marker_is_stale {
        return false;
    }
    let mut j: usize = 0;
    while j < outputs.len()
        invariant
            j <= outputs@.len(),
            forall|k: int| 0 <= k < j ==> outputs@[k] is Some,
        decreases outputs@.len() - j,
    {
        if outputs[j].is_none() {
            return false;
        }
        j = j + 1;
    }
    let mut i: usize = 0;
    // Largest input timestamp seen so far; inputs are vacuously not newer
    // while none has been seen.
    let mut max_input: Option<u64> = None;
    while i < inputs.len()
        invariant
            i <= inputs@.len(),
            forall|k: int| 0 <= k < i ==> inputs@[k] is Some,
            max_input is Some <==> i > 0,
            max_input is Some ==> exists|k: int|
                0 <= k < i && inputs@[k] is Some && inputs@[k]->0 == max_input->0,
            forall|k: int| 0 <= k < i ==> inputs@[k]->0 <= max_input->0,
        decreases inputs@.len() - i,
    {
        match inputs[i] {
            None => {
                return false;
            },
            Some(t) => {
                match max_input {
                    None => {
                        max_input = Some(t);
                    },
                    Some(m) => {
                        if t > m {
                            max_input = Some(t);
                        }
                    },
                }
            },
        }
        i = i + 1;
    }
    match max_input {
        None => {
            assert(!inputs_newer(inputs@, outputs@));
            true
        },
        Some(m) => {
            let mut j: usize = 0;
            while j < outputs.len()
                invariant
                    j <= outputs@.len(),
                    forall|k: int| 0 <= k < outputs@.len() ==> outputs@[k] is Some,
                    forall|k: int| 0 <= k < inputs@.len() ==> inputs@[k] is Some,
                    forall|k: int| 0 <= k < inputs@.len() ==> inputs@[k]->0 <= m,
                    exists|k: int|
                        0 <= k < inputs@.len() && inputs@[k] is Some && inputs@[k]->0 == m,
                    forall|k: int| 0 <= k < j ==> outputs@[k]->0 >= m,
                decreases outputs@.len() - j,
            {
                if outputs[j].unwrap() < m {
                    return false;
                }
                j = j + 1;
            }
            assert(!inputs_newer(inputs@, outputs@));
            true
        },
    }
}

/// A missing output file always forces the action, whatever the marker
/// says: external tampering with the linked output is detected.
pub proof fn lemma_missing_output_forces_action(
    force: bool,
    marker_is_stale: bool,
    inputs: Seq<Option<u64>>,
    outputs: Seq<Option<u64>>,
    j: int,
)
    requires
        0 <= j < outputs.len(),
        outputs[j] is None,
    ensures
        !spec_should_skip(force, marker_is_stale, inputs, outputs),
{
}

} // verus!
