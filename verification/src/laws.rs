//! The linking laws: properties of the incremental-build protocol, proved
//! over the functional model of the orchestrator.

use vstd::prelude::*;
use crate::classifier::{names_of_type, spec_static_sig, Dependency, DependencyType};
use crate::fs_model::{fs_wf, FsView};
use crate::link_rpc::{
    spec_action_ok, spec_find_component, spec_fs_after, spec_input_paths, spec_marker_id,
    spec_marker_stale, spec_mtimes, spec_run, spec_sig, spec_skip, spec_step, AppModel,
    ComponentSpec, ComponentState, StepView,
};
use crate::strutil::{canon_names, lemma_canon_set_sensitivity};
use crate::up_to_date::{all_present, spec_should_skip};
use crate::link_rpc::lemma_marker_id_injective;

verus! {

/// Set sensitivity: two dependency lists produce the same marker input
/// signature exactly when they declare the same set of static dependency
/// names. Reordering or duplicating static dependencies never changes
/// the signature; adding or removing one always does.
pub proof fn lemma_sig_set_sensitivity(deps1: Seq<Dependency>, deps2: Seq<Dependency>)
    ensures
        spec_static_sig(deps1) == spec_static_sig(deps2) <==> names_of_type(
            deps1,
            DependencyType::StaticWasmRpc,
        ).to_set() == names_of_type(deps2, DependencyType::StaticWasmRpc).to_set(),
{
    lemma_canon_set_sensitivity(
        names_of_type(deps1, DependencyType::StaticWasmRpc),
        names_of_type(deps2, DependencyType::StaticWasmRpc),
    );
}

/// Dynamic independence: two components that differ only in their
/// dependency lists, with equal static name sets, take exactly the same
/// step — the marker, the verdict, and every effect ignore dynamic
/// dependencies.
pub proof fn lemma_dynamic_independence(
    cw: Seq<(String, String)>,
    c1: ComponentSpec,
    c2: ComponentSpec,
    force: bool,
    st: Map<Seq<char>, (Seq<Seq<char>>, bool)>,
    fs: FsView,
)
    requires
        c1.name == c2.name,
        c1.component_wasm == c2.component_wasm,
        c1.linked_wasm == c2.linked_wasm,
        names_of_type(c1.dependencies@, DependencyType::StaticWasmRpc).to_set() == names_of_type(
            c2.dependencies@,
            DependencyType::StaticWasmRpc,
        ).to_set(),
    ensures
        spec_step(cw, c1, force, st, fs) == spec_step(cw, c2, force, st, fs),
{
    lemma_sig_set_sensitivity(c1.dependencies@, c2.dependencies@);
    assert(spec_sig(c1) == spec_sig(c2));
    assert(spec_input_paths(cw, c1) == spec_input_paths(cw, c2));
    assert(spec_marker_stale(st, c1) == spec_marker_stale(st, c2));
    assert(spec_skip(cw, c1, force, st, fs) == spec_skip(cw, c2, force, st, fs));
    assert(spec_action_ok(cw, c1, fs) == spec_action_ok(cw, c2, fs));
    assert(spec_fs_after(cw, c1, fs) =~= spec_fs_after(cw, c2, fs));
    assert(spec_step(cw, c1, force, st, fs) =~= spec_step(cw, c2, force, st, fs));
}

/// Passthrough correctness: when a component has no static dependencies
/// and its step acts successfully, the linked output is byte-identical to
/// the unlinked binary — its content is the source's content, produced by
/// plain copy.
pub proof fn lemma_passthrough(
    cw: Seq<(String, String)>,
    c: ComponentSpec,
    force: bool,
    st: Map<Seq<char>, (Seq<Seq<char>>, bool)>,
    fs: FsView,
)
    requires
        spec_sig(c).len() == 0,
        spec_step(cw, c, force, st, fs).state is Linked,
    ensures
        spec_step(cw, c, force, st, fs).fs.files.contains_key(c.linked_wasm@),
        spec_step(cw, c, force, st, fs).fs.files[c.linked_wasm@].content
            == fs.files[c.component_wasm@].content,
{
}

/// Retry on failure: a failed attempt's marker never reads back as fresh.
/// After a failed step, the next step on the same component — whatever
/// happened to the filesystem in between — acts again rather than skips.
pub proof fn lemma_retry_after_failure(
    cw: Seq<(String, String)>,
    c: ComponentSpec,
    force1: bool,
    force2: bool,
    st: Map<Seq<char>, (Seq<Seq<char>>, bool)>,
    fs: FsView,
    fs2: FsView,
)
    requires
        spec_step(cw, c, force1, st, fs).state is Failed,
    ensures
        spec_marker_stale(spec_step(cw, c, force1, st, fs).st, c),
        !(spec_step(cw, c, force2, spec_step(cw, c, force1, st, fs).st, fs2).state is Skipped),
{
    let st1 = spec_step(cw, c, force1, st, fs).st;
    assert(st1[spec_marker_id(c.name@)] == (spec_sig(c), false));
}

/// External tamper detection: if the linked output file is missing —
/// whatever the marker says — the step acts rather than skips.
pub proof fn lemma_tamper_detected(
    cw: Seq<(String, String)>,
    c: ComponentSpec,
    force: bool,
    st: Map<Seq<char>, (Seq<Seq<char>>, bool)>,
    fs: FsView,
)
    requires
        !fs.files.contains_key(c.linked_wasm@),
    ensures
        !spec_skip(cw, c, force, st, fs),
        !(spec_step(cw, c, force, st, fs).state is Skipped),
{
    let outs = spec_mtimes(fs, seq![c.linked_wasm@]);
    assert(outs[0] is None);
    assert(!all_present(outs));
}

/// The component a selection entry resolves to.
pub open spec fn sel_comp(model: AppModel, selected: Seq<Seq<char>>, a: int) -> ComponentSpec {
    spec_find_component(model.components@, selected[a])->0
}

/// Every selected name resolves to a component.
pub open spec fn all_resolvable(model: AppModel, selected: Seq<Seq<char>>) -> bool {
    forall|a: int|
        0 <= a < selected.len() ==> spec_find_component(
            model.components@,
            #[trigger] selected[a],
        ) is Some
}

/// Artifact-path isolation of a selection: distinct selected components
/// write distinct linked outputs, and no linked output doubles as any
/// selected component's input. The application model's pure path
/// functions guarantee this by construction.
pub open spec fn run_isolated(model: AppModel, selected: Seq<Seq<char>>) -> bool {
    &&& forall|a: int, b: int|
        0 <= a < selected.len() && 0 <= b < selected.len() && a != b ==> (
        #[trigger] sel_comp(model, selected, a)).linked_wasm@ != (
        #[trigger] sel_comp(model, selected, b)).linked_wasm@
    &&& forall|a: int, b: int, j: int|
        0 <= a < selected.len() && 0 <= b < selected.len() && 0 <= j < spec_input_paths(
            model.client_wasms@,
            sel_comp(model, selected, a),
        ).len() ==> #[trigger] spec_input_paths(model.client_wasms@, sel_comp(model, selected, a))[j]
            != (#[trigger] sel_comp(model, selected, b)).linked_wasm@
}

/// One step only writes the component's own linked output and its own
/// marker key, never deletes a file, never lowers a timestamp, and keeps
/// the filesystem well-formed.
pub proof fn lemma_step_frame(
    cw: Seq<(String, String)>,
    c: ComponentSpec,
    force: bool,
    st: Map<Seq<char>, (Seq<Seq<char>>, bool)>,
    fs: FsView,
)
    requires
        fs.clock < u64::MAX,
        fs_wf(fs),
    ensures
        ({
            let step = spec_step(cw, c, force, st, fs);
            &&& forall|p: Seq<char>|
                p != c.linked_wasm@ ==> (#[trigger] step.fs.files.contains_key(p)
                    == fs.files.contains_key(p) && (fs.files.contains_key(p)
                    ==> step.fs.files[p] == fs.files[p]))
            &&& forall|p: Seq<char>| #[trigger]
                fs.files.contains_key(p) ==> step.fs.files.contains_key(p)
                    && step.fs.files[p].mtime >= fs.files[p].mtime
            &&& fs.clock <= step.fs.clock <= fs.clock + 1
            &&& step.fs.write_fails == fs.write_fails
            &&& forall|k: Seq<char>|
                k != spec_marker_id(c.name@) ==> (#[trigger] step.st.contains_key(k)
                    == st.contains_key(k) && (st.contains_key(k) ==> step.st[k] == st[k]))
            &&& fs_wf(step.fs)
        }),
{
    let step = spec_step(cw, c, force, st, fs);
    if !spec_skip(cw, c, force, st, fs) && spec_action_ok(cw, c, fs) {
        assert(step.fs == spec_fs_after(cw, c, fs));
        assert forall|p: Seq<char>| #[trigger]
            fs.files.contains_key(p) implies step.fs.files.contains_key(p)
            && step.fs.files[p].mtime >= fs.files[p].mtime by {
            if p == c.linked_wasm@ {
                assert(fs.files[p].mtime < fs.clock);
                assert(step.fs.files[p].mtime == fs.clock);
            }
        }
        assert forall|p: Seq<char>| #[trigger]
            step.fs.files.contains_key(p) implies step.fs.files[p].mtime < step.fs.clock by {
            if p != c.linked_wasm@ {
                assert(fs.files.contains_key(p));
            }
        }
    }
}


/// A found component carries the searched name.
pub proof fn lemma_find_component_name(s: Seq<ComponentSpec>, name: Seq<char>)
    requires
        spec_find_component(s, name) is Some,
    ensures
        (spec_find_component(s, name)->0).name@ == name,
    decreases s.len(),
{
    if s.len() > 0 && s[0].name@ != name {
        lemma_find_component_name(s.drop_first(), name);
    }
}

/// A run leaves every path untouched that is no selected component's
/// linked output.
pub proof fn lemma_run_fs_frame(
    model: AppModel,
    selected: Seq<Seq<char>>,
    force: bool,
    st: Map<Seq<char>, (Seq<Seq<char>>, bool)>,
    fs: FsView,
    p: Seq<char>,
)
    requires
        fs.clock + selected.len() <= u64::MAX,
        fs_wf(fs),
        forall|b: int|
            0 <= b < selected.len() ==> p != (#[trigger] sel_comp(model, selected, b)).linked_wasm@,
    ensures
        ({
            let run = spec_run(model, selected, force, st, fs);
            &&& run.fs.files.contains_key(p) == fs.files.contains_key(p)
            &&& (fs.files.contains_key(p) ==> run.fs.files[p] == fs.files[p])
        }),
    decreases selected.len(),
{
    if selected.len() > 0 {
        let c0 = spec_find_component(model.components@, selected[0])->0;
        let step = spec_step(model.client_wasms@, c0, force, st, fs);
        assert(c0 == sel_comp(model, selected, 0));
        assert(p != c0.linked_wasm@);
        lemma_step_frame(model.client_wasms@, c0, force, st, fs);
        if !(step.state is Failed) {
            let rest = selected.drop_first();
            assert forall|b: int|
                0 <= b < rest.len() implies p != (#[trigger] sel_comp(model, rest, b)).linked_wasm@ by {
                assert(rest[b] == selected[b + 1]);
                assert(sel_comp(model, rest, b) == sel_comp(model, selected, b + 1));
            }
            lemma_run_fs_frame(model, rest, force, step.st, step.fs, p);
        }
    }
}

/// A run never deletes a file, never lowers a timestamp, advances the
/// clock by at most one tick per component, keeps the injected write
/// failures, and keeps the filesystem well-formed.
pub proof fn lemma_run_fs_general(
    model: AppModel,
    selected: Seq<Seq<char>>,
    force: bool,
    st: Map<Seq<char>, (Seq<Seq<char>>, bool)>,
    fs: FsView,
)
    requires
        fs.clock + selected.len() <= u64::MAX,
        fs_wf(fs),
    ensures
        ({
            let run = spec_run(model, selected, force, st, fs);
            &&& fs.clock <= run.fs.clock <= fs.clock + selected.len()
            &&& run.fs.write_fails == fs.write_fails
            &&& fs_wf(run.fs)
            &&& forall|p: Seq<char>| #[trigger]
                fs.files.contains_key(p) ==> run.fs.files.contains_key(p)
                    && run.fs.files[p].mtime >= fs.files[p].mtime
        }),
    decreases selected.len(),
{
    if selected.len() > 0 {
        let c0 = spec_find_component(model.components@, selected[0])->0;
        let step = spec_step(model.client_wasms@, c0, force, st, fs);
        lemma_step_frame(model.client_wasms@, c0, force, st, fs);
        if !(step.state is Failed) {
            lemma_run_fs_general(model, selected.drop_first(), force, step.st, step.fs);
        }
    }
}

/// In a run that succeeds, a fresh success marker stays fresh: whatever
/// later components record, the record for this component's step keeps
/// its signature and its success outcome.
pub proof fn lemma_run_marker_stable(
    model: AppModel,
    selected: Seq<Seq<char>>,
    force: bool,
    st: Map<Seq<char>, (Seq<Seq<char>>, bool)>,
    fs: FsView,
    name: Seq<char>,
)
    requires
        spec_run(model, selected, force, st, fs).ok,
        all_resolvable(model, selected),
        spec_find_component(model.components@, name) is Some,
        st.contains_key(spec_marker_id(name)),
        st[spec_marker_id(name)] == (
            spec_sig(spec_find_component(model.components@, name)->0),
            true,
        ),
    ensures
        ({
            let run = spec_run(model, selected, force, st, fs);
            &&& run.st.contains_key(spec_marker_id(name))
            &&& run.st[spec_marker_id(name)] == (
                spec_sig(spec_find_component(model.components@, name)->0),
                true,
            )
        }),
    decreases selected.len(),
{
    if selected.len() > 0 {
        let c0 = spec_find_component(model.components@, selected[0])->0;
        let step = spec_step(model.client_wasms@, c0, force, st, fs);
        assert(spec_find_component(model.components@, selected[0]) is Some);
        lemma_find_component_name(model.components@, selected[0]);
        assert(c0.name@ == selected[0]);
        assert(!(step.state is Failed));
        if !spec_skip(model.client_wasms@, c0, force, st, fs) {
            assert(spec_action_ok(model.client_wasms@, c0, fs));
            if spec_marker_id(c0.name@) == spec_marker_id(name) {
                lemma_marker_id_injective(c0.name@, name);
                assert(c0.name@ == name);
                assert(step.st[spec_marker_id(name)] == (spec_sig(c0), true));
            } else {
                assert(step.st[spec_marker_id(name)] == st[spec_marker_id(name)]);
            }
        }
        assert forall|a: int|
            0 <= a < selected.drop_first().len() implies spec_find_component(
                model.components@,
                #[trigger] selected.drop_first()[a],
            ) is Some by {
            assert(selected.drop_first()[a] == selected[a + 1]);
        }
        lemma_run_marker_stable(model, selected.drop_first(), force, step.st, step.fs, name);
    }
}

/// Idempotence: a second run over the same selection with unchanged
/// inputs performs zero actions — every component reads as up to date,
/// and neither the marker store nor the filesystem changes. The
/// well-formedness hypothesis on the filesystem holds of every
/// [`crate::fs_model::FsState`] by [`crate::fs_model::FsState::lemma_mtimes_bounded`].
pub proof fn lemma_link_idempotent(
    model: AppModel,
    selected: Seq<Seq<char>>,
    force: bool,
    st: Map<Seq<char>, (Seq<Seq<char>>, bool)>,
    fs: FsView,
)
    requires
        all_resolvable(model, selected),
        run_isolated(model, selected),
        fs_wf(fs),
        fs.clock + selected.len() <= u64::MAX,
        spec_run(model, selected, force, st, fs).ok,
    ensures
        ({
            let r1 = spec_run(model, selected, force, st, fs);
            let r2 = spec_run(model, selected, false, r1.st, r1.fs);
            &&& r2.st == r1.st
            &&& r2.fs == r1.fs
            &&& r2.ok
            &&& r2.states.len() == selected.len()
            &&& forall|k: int| 0 <= k < selected.len() ==> r2.states[k] is Skipped
        }),
    decreases selected.len(),
{
    let cw = model.client_wasms@;
    let r1 = spec_run(model, selected, force, st, fs);
    if selected.len() == 0 {
        assert(r1.st == st && r1.fs == fs);
        let r2 = spec_run(model, selected, false, r1.st, r1.fs);
        assert(r2.states.len() == 0);
    } else {
        let c0 = spec_find_component(model.components@, selected[0])->0;
        let step1 = spec_step(cw, c0, force, st, fs);
        let rest = selected.drop_first();
        assert(c0 == sel_comp(model, selected, 0));
        lemma_find_component_name(model.components@, selected[0]);
        assert(!(step1.state is Failed));
        let rest1 = spec_run(model, rest, force, step1.st, step1.fs);
        assert(r1.st == rest1.st && r1.fs == rest1.fs && r1.ok == rest1.ok);
        lemma_step_frame(cw, c0, force, st, fs);

        // Hypotheses of the frame lemmas for the rest of the run.
        assert forall|a: int|
            0 <= a < rest.len() implies spec_find_component(
                model.components@,
                #[trigger] rest[a],
            ) is Some by {
            assert(rest[a] == selected[a + 1]);
        }
        assert(step1.fs.clock + rest.len() <= u64::MAX);
        lemma_run_fs_general(model, rest, force, step1.st, step1.fs);

        // The component's inputs are untouched by the whole run.
        let inps = spec_input_paths(cw, c0);
        assert forall|j: int|
            0 <= j < inps.len() implies (r1.fs.files.contains_key(#[trigger] inps[j])
                == fs.files.contains_key(inps[j]) && (fs.files.contains_key(inps[j])
                ==> r1.fs.files[inps[j]] == fs.files[inps[j]])) by {
            assert(inps[j] != c0.linked_wasm@) by {
                assert(spec_input_paths(cw, sel_comp(model, selected, 0))[j] != sel_comp(
                    model,
                    selected,
                    0,
                ).linked_wasm@);
            }
            assert forall|b: int|
                0 <= b < rest.len() implies inps[j] != (#[trigger] sel_comp(
                    model,
                    rest,
                    b,
                )).linked_wasm@ by {
                assert(rest[b] == selected[b + 1]);
                assert(sel_comp(model, rest, b) == sel_comp(model, selected, b + 1));
                assert(spec_input_paths(cw, sel_comp(model, selected, 0))[j] != sel_comp(
                    model,
                    selected,
                    b + 1,
                ).linked_wasm@);
            }
            lemma_run_fs_frame(model, rest, force, step1.st, step1.fs, inps[j]);
        }

        // The component's linked output is untouched by the rest of the
        // run.
        assert forall|b: int|
            0 <= b < rest.len() implies c0.linked_wasm@ != (#[trigger] sel_comp(
                model,
                rest,
                b,
            )).linked_wasm@ by {
            assert(rest[b] == selected[b + 1]);
            assert(sel_comp(model, rest, b) == sel_comp(model, selected, b + 1));
            assert(sel_comp(model, selected, 0).linked_wasm@ != sel_comp(
                model,
                selected,
                b + 1,
            ).linked_wasm@);
        }
        lemma_run_fs_frame(model, rest, force, step1.st, step1.fs, c0.linked_wasm@);

        // The marker written or certified for this component stays fresh.
        if spec_skip(cw, c0, force, st, fs) {
            assert(st.contains_key(spec_marker_id(c0.name@)));
            assert(st[spec_marker_id(c0.name@)] == (spec_sig(c0), true));
            lemma_run_marker_stable(model, rest, force, step1.st, step1.fs, c0.name@);
        } else {
            assert(spec_action_ok(cw, c0, fs));
            assert(step1.st.contains_key(spec_marker_id(c0.name@)));
            assert(step1.st[spec_marker_id(c0.name@)] == (spec_sig(c0), true));
            lemma_run_marker_stable(model, rest, force, step1.st, step1.fs, c0.name@);
        }
        assert(!spec_marker_stale(r1.st, c0));

        // The inputs read the same at the end of the first run, and the
        // output is present and at least as new as every input.
        let in1 = spec_mtimes(fs, inps);
        let in2 = spec_mtimes(r1.fs, inps);
        assert(in2 =~= in1);
        let out2 = spec_mtimes(r1.fs, seq![c0.linked_wasm@]);
        if spec_skip(cw, c0, force, st, fs) {
            let out1 = spec_mtimes(fs, seq![c0.linked_wasm@]);
            assert(all_present(out1));
            assert(out1.len() == 1);
            assert(out1[0] is Some);
            assert(fs.files.contains_key(c0.linked_wasm@));
            assert(step1.fs == fs);
            assert(out2 =~= out1);
            assert(spec_skip(cw, c0, false, r1.st, r1.fs)) by {
                assert(spec_should_skip(force, spec_marker_stale(st, c0), in1, out1));
            }
        } else {
            assert(all_present(in1));
            assert(step1.fs.files[c0.linked_wasm@].mtime == fs.clock);
            assert(r1.fs.files.contains_key(c0.linked_wasm@));
            assert(r1.fs.files[c0.linked_wasm@].mtime == fs.clock);
            assert(all_present(out2)) by {
                assert(out2[0] is Some);
            }
            assert(all_present(in2));
            assert(!crate::up_to_date::inputs_newer(in2, out2)) by {
                assert forall|ii: int, jj: int|
                    0 <= ii < in2.len() && 0 <= jj < out2.len() && in2[ii] is Some && out2[jj]
                        is Some implies !(in2[ii]->0 > out2[jj]->0) by {
                    assert(in2[ii] == in1[ii]);
                    assert(fs.files.contains_key(inps[ii]));
                    assert(fs.files[inps[ii]].mtime < fs.clock);
                    assert(out2[jj]->0 == fs.clock);
                }
            }
            assert(spec_skip(cw, c0, false, r1.st, r1.fs));
        }
        let step2 = spec_step(cw, c0, false, r1.st, r1.fs);
        assert(step2.state is Skipped && step2.st == r1.st && step2.fs == r1.fs);

        // Induction over the rest of the selection.
        assert forall|a: int, b: int|
            0 <= a < rest.len() && 0 <= b < rest.len() && a != b implies (#[trigger] sel_comp(
                model,
                rest,
                a,
            )).linked_wasm@ != (#[trigger] sel_comp(model, rest, b)).linked_wasm@ by {
            assert(rest[a] == selected[a + 1] && rest[b] == selected[b + 1]);
            assert(sel_comp(model, rest, a) == sel_comp(model, selected, a + 1));
            assert(sel_comp(model, rest, b) == sel_comp(model, selected, b + 1));
        }
        assert forall|a: int, b: int, j: int|
            0 <= a < rest.len() && 0 <= b < rest.len() && 0 <= j < spec_input_paths(
                cw,
                sel_comp(model, rest, a),
            ).len() implies #[trigger] spec_input_paths(cw, sel_comp(model, rest, a))[j] != (
            #[trigger] sel_comp(model, rest, b)).linked_wasm@ by {
            assert(rest[a] == selected[a + 1] && rest[b] == selected[b + 1]);
            assert(sel_comp(model, rest, a) == sel_comp(model, selected, a + 1));
            assert(sel_comp(model, rest, b) == sel_comp(model, selected, b + 1));
            assert(spec_input_paths(cw, sel_comp(model, selected, a + 1))[j] != sel_comp(
                model,
                selected,
                b + 1,
            ).linked_wasm@);
        }
        lemma_link_idempotent(model, rest, force, step1.st, step1.fs);

        let r2 = spec_run(model, selected, false, r1.st, r1.fs);
        let r2rest = spec_run(model, rest, false, r1.st, r1.fs);
        assert(r2.st == r2rest.st && r2.fs == r2rest.fs && r2.ok == r2rest.ok);
        assert(r2.states =~= seq![ComponentState::Skipped] + r2rest.states);
        assert forall|k: int| 0 <= k < selected.len() implies r2.states[k] is Skipped by {
            if k > 0 {
                assert(r2.states[k] == r2rest.states[k - 1]);
            }
        }
    }
}

} // verus!
