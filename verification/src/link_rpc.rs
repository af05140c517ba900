//! The link orchestrator: drives the per-component classify / plan / act /
//! record loop.
//!
//! For each selected component, in caller-supplied order: classify its
//! dependencies, resolve the client-stub and binary paths, compute the
//! task-result marker from the canonical static name set, consult the
//! up-to-date oracle, and either skip (no mutation, no marker write) or
//! act — a plain copy when no static dependencies exist, otherwise the
//! composition collaborator — and record the outcome before propagating
//! any error. The first failure aborts the remaining components.
//!
//! The whole loop is specified by the functional model [`spec_run`], one
//! component by [`spec_step`]; the crate's linking laws are proved over
//! that model.

use vstd::prelude::*;
use vstd::string::*;
use crate::classifier::{classify, spec_static_sig, Dependency};
use crate::fs_model::{FileMeta, FsState, FsView};
use crate::marker::{compute_marker, MarkerStore, TaskResultMarker};
use crate::strutil::{join_strings, join_with};
use crate::up_to_date::{all_present, should_skip, spec_should_skip};

verus! {

/// A component as the application model presents it to the orchestrator:
/// its identity, declared dependencies, and resolved artifact paths (the
/// unlinked binary, already selected for the active build profile, and
/// the linked output).
pub struct ComponentSpec {
    pub name: String,
    pub dependencies: Vec<Dependency>,
    pub component_wasm: String,
    pub linked_wasm: String,
}

/// The read-only application model for one run: the declared components
/// and the client-stub binary path of each dependency target.
pub struct AppModel {
    pub components: Vec<ComponentSpec>,
    pub client_wasms: Vec<(String, String)>,
}

/// First client-stub path registered for a dependency name.
pub open spec fn spec_stub_lookup(cw: Seq<(String, String)>, name: Seq<char>) -> Option<Seq<char>>
    decreases cw.len(),
{
    if cw.len() == 0 {
        None
    } else if cw[0].0@ == name {
        Some(cw[0].1@)
    } else {
        spec_stub_lookup(cw.drop_first(), name)
    }
}

/// First component declared under the given name.
pub open spec fn spec_find_component(s: Seq<ComponentSpec>, name: Seq<char>) -> Option<
    ComponentSpec,
>
    decreases s.len(),
{
    if s.len() == 0 {
        None
    } else if s[0].name@ == name {
        Some(s[0])
    } else {
        spec_find_component(s.drop_first(), name)
    }
}

impl AppModel {
    /// Whether a component of this name is declared.
    pub open spec fn has_component(self, name: Seq<char>) -> bool {
        spec_find_component(self.components@, name) is Some
    }

    /// Well-formedness of the declared graph: every static dependency of
    /// every component resolves to a client-stub path. An unresolved
    /// dependency is a precondition violation of the application model,
    /// not handled here.
    pub open spec fn wf(self) -> bool {
        forall|i: int, n: Seq<char>| #![auto]
            0 <= i < self.components@.len() && spec_sig(self.components@[i]).to_set().contains(n)
                ==> spec_stub_lookup(self.client_wasms@, n) is Some
    }
}

/// The marker step identity for linking a component.
pub open spec fn spec_marker_id(name: Seq<char>) -> Seq<char> {
    "link-rpc "@ + name
}

/// Builds the step identity string for a component's link step.
pub fn marker_step_identity(name: &String) -> (r: String)
    ensures
        r@ == spec_marker_id(name@),
{
    let mut s = String::from_str("link-rpc ");
    s.append(name.as_str());
    s
}

/// Distinct components get distinct marker step identities.
pub proof fn lemma_marker_id_injective(a: Seq<char>, b: Seq<char>)
    requires
        spec_marker_id(a) == spec_marker_id(b),
    ensures
        a == b,
{
    let p = "link-rpc "@;
    assert((p + a).len() == (p + b).len());
    assert(a.len() == b.len());
    assert forall|i: int| 0 <= i < a.len() implies a[i] == b[i] by {
        assert(a[i] == (p + a)[p.len() + i]);
        assert(b[i] == (p + b)[p.len() + i]);
    }
    assert(a =~= b);
}

/// The canonical static-dependency signature of a component.
pub open spec fn spec_sig(c: ComponentSpec) -> Seq<Seq<char>> {
    spec_static_sig(c.dependencies@)
}

/// The client-stub paths of a signature's names, in signature order.
pub open spec fn spec_stub_paths(cw: Seq<(String, String)>, names: Seq<Seq<char>>) -> Seq<
    Seq<char>,
> {
    names.map_values(|n: Seq<char>| spec_stub_lookup(cw, n)->0)
}

/// The oracle inputs of a component's link step: its static stubs, then
/// its unlinked binary.
pub open spec fn spec_input_paths(cw: Seq<(String, String)>, c: ComponentSpec) -> Seq<Seq<char>> {
    spec_stub_paths(cw, spec_sig(c)).push(c.component_wasm@)
}

/// Modification times of the given paths, `None` for a missing file.
pub open spec fn spec_mtimes(fs: FsView, paths: Seq<Seq<char>>) -> Seq<Option<u64>> {
    paths.map_values(
        |p: Seq<char>|
            if fs.files.contains_key(p) {
                Some(fs.files[p].mtime)
            } else {
                None
            },
    )
}

/// Whether the stored marker fails to certify this component's current
/// inputs: no record, an identity mismatch, a changed signature, or a
/// recorded failure all read as stale.
pub open spec fn spec_marker_stale(
    st: Map<Seq<char>, (Seq<Seq<char>>, bool)>,
    c: ComponentSpec,
) -> bool {
    !(st.contains_key(spec_marker_id(c.name@)) && st[spec_marker_id(c.name@)] == (
        spec_sig(c),
        true,
    ))
}

/// The oracle verdict for a component.
pub open spec fn spec_skip(
    cw: Seq<(String, String)>,
    c: ComponentSpec,
    force: bool,
    st: Map<Seq<char>, (Seq<Seq<char>>, bool)>,
    fs: FsView,
) -> bool {
    spec_should_skip(
        force,
        spec_marker_stale(st, c),
        spec_mtimes(fs, spec_input_paths(cw, c)),
        spec_mtimes(fs, seq![c.linked_wasm@]),
    )
}

/// Whether the action (copy or compose) succeeds: every input file
/// exists and the destination is writable.
pub open spec fn spec_action_ok(
    cw: Seq<(String, String)>,
    c: ComponentSpec,
    fs: FsView,
) -> bool {
    all_present(spec_mtimes(fs, spec_input_paths(cw, c))) && !fs.write_fails.contains(
        c.linked_wasm@,
    )
}

/// The filesystem after a successful action: the linked output carries
/// the unlinked binary's content for an empty signature (plain copy),
/// fresh content otherwise (composition), stamped at the clock.
pub open spec fn spec_fs_after(cw: Seq<(String, String)>, c: ComponentSpec, fs: FsView) -> FsView {
    FsView {
        files: fs.files.insert(
            c.linked_wasm@,
            FileMeta {
                mtime: fs.clock,
                content: if spec_sig(c).len() == 0 {
                    fs.files[c.component_wasm@].content
                } else {
                    fs.next_content
                },
            },
        ),
        clock: (fs.clock + 1) as u64,
        next_content: if spec_sig(c).len() == 0 {
            fs.next_content
        } else {
            (fs.next_content + 1) as u64
        },
        write_fails: fs.write_fails,
    }
}

/// A component's terminal processing state. `Pending` and `Linking` are
/// the transient states of the per-component machine; reports carry one
/// of the terminal three.
#[derive(Debug, Clone, Copy, PartialEq, Eq, Structural)]
pub enum ComponentState {
    Pending,
    Skipped,
    Linking,
    Linked,
    Failed,
}

/// The filesystem mutation performed for a component.
#[derive(Debug, Clone)]
pub enum LinkAction {
    Copy { source: String, dest: String },
    Compose { primary: String, stubs: Vec<String>, dest: String },
}

/// Outcome of one component's link step.
#[derive(Debug)]
pub struct ComponentReport {
    pub component: String,
    pub state: ComponentState,
    pub action: Option<LinkAction>,
}

/// An action failure, wrapped with component-identifying context.
#[derive(Debug, Clone)]
pub enum LinkError {
    ActionFailed { component: String, dest: String },
}

impl LinkError {
    /// A human-readable description of the failure.
    pub fn message(&self) -> (r: String)
        ensures
            (match self {
                LinkError::ActionFailed { component, dest } => r@ == "failed to link "@
                    + component@ + " into "@ + dest@,
            }),
    {
        match self {
            LinkError::ActionFailed { component, dest } => {
                let mut s = String::from_str("failed to link ");
                s.append(component.as_str());
                s.append(" into ");
                s.append(dest.as_str());
                s
            },
        }
    }
}

/// One component's step in the functional model.
#[verifier::ext_equal]
pub struct StepView {
    pub st: Map<Seq<char>, (Seq<Seq<char>>, bool)>,
    pub fs: FsView,
    pub state: ComponentState,
}

/// The functional model of one component's link step: skip without any
/// mutation, or act and record the outcome — success exactly when every
/// input exists and the destination is writable.
pub open spec fn spec_step(
    cw: Seq<(String, String)>,
    c: ComponentSpec,
    force: bool,
    st: Map<Seq<char>, (Seq<Seq<char>>, bool)>,
    fs: FsView,
) -> StepView {
    if spec_skip(cw, c, force, st, fs) {
        StepView { st, fs, state: ComponentState::Skipped }
    } else {
        let ok = spec_action_ok(cw, c, fs);
        StepView {
            st: st.insert(spec_marker_id(c.name@), (spec_sig(c), ok)),
            fs: if ok {
                spec_fs_after(cw, c, fs)
            } else {
                fs
            },
            state: if ok {
                ComponentState::Linked
            } else {
                ComponentState::Failed
            },
        }
    }
}

/// A whole run in the functional model.
#[verifier::ext_equal]
pub struct RunView {
    pub st: Map<Seq<char>, (Seq<Seq<char>>, bool)>,
    pub fs: FsView,
    pub states: Seq<ComponentState>,
    pub ok: bool,
}

/// The functional model of a run over the selected components, in order,
/// fail-fast: the first failed component ends the run.
pub open spec fn spec_run(
    model: AppModel,
    selected: Seq<Seq<char>>,
    force: bool,
    st: Map<Seq<char>, (Seq<Seq<char>>, bool)>,
    fs: FsView,
) -> RunView
    decreases selected.len(),
{
    if selected.len() == 0 {
        RunView { st, fs, states: Seq::empty(), ok: true }
    } else {
        let c = spec_find_component(model.components@, selected[0])->0;
        let step = spec_step(model.client_wasms@, c, force, st, fs);
        if step.state is Failed {
            RunView { st: step.st, fs: step.fs, states: seq![step.state], ok: false }
        } else {
            let rest = spec_run(model, selected.drop_first(), force, step.st, step.fs);
            RunView {
                st: rest.st,
                fs: rest.fs,
                states: seq![step.state] + rest.states,
                ok: rest.ok,
            }
        }
    }
}

/// Resolves a dependency name to its client-stub path.
fn lookup_stub(cw: &Vec<(String, String)>, name: &String) -> (r: Option<String>)
    ensures
        (match r {
            Some(p) => spec_stub_lookup(cw@, name@) == Some(p@),
            None => spec_stub_lookup(cw@, name@) is None,
        }),
{
    let mut i: usize = 0;
    proof {
        assert(cw@.skip(0) =~= cw@);
    }
    while i < cw.len()
        invariant
            i <= cw@.len(),
            spec_stub_lookup(cw@, name@) == spec_stub_lookup(cw@.skip(i as int), name@),
        decreases cw@.len() - i,
    {
        proof {
            assert(cw@.skip(i as int)[0] == cw@[i as int]);
            assert(cw@.skip(i as int).drop_first() =~= cw@.skip(i + 1));
        }
        if cw[i].0 == *name {
            return Some(cw[i].1.clone());
        }
        i = i + 1;
    }
    None
}

/// Resolves every name of a canonical signature to its stub path, in
/// signature order.
fn resolve_stubs(cw: &Vec<(String, String)>, names: &Vec<String>) -> (r: Vec<String>)
    requires
        forall|n: Seq<char>|
            names.deep_view().to_set().contains(n) ==> spec_stub_lookup(cw@, n) is Some,
    ensures
        r.deep_view() == spec_stub_paths(cw@, names.deep_view()),
{
    let mut r: Vec<String> = Vec::new();
    let mut i: usize = 0;
    while i < names.len()
        invariant
            i <= names@.len(),
            r@.len() == i,
            forall|n: Seq<char>|
                names.deep_view().to_set().contains(n) ==> spec_stub_lookup(cw@, n) is Some,
            r.deep_view() =~= spec_stub_paths(cw@, names.deep_view().take(i as int)),
        decreases names@.len() - i,
    {
        proof {
            assert(names.deep_view().to_set().contains(names.deep_view()[i as int])) by {
                assert(names.deep_view()[i as int] == names.deep_view()[i as int]);
            }
        }
        let stub = match lookup_stub(cw, &names[i]) {
            Some(p) => p,
            None => {
                proof {
                    assert(false);
                }
                String::new()
            },
        };
        let ghost pre = r.deep_view();
        let ghost prev = r@;
        r.push(stub);
        proof {
            let post = spec_stub_paths(cw@, names.deep_view().take(i + 1));
            assert(names.deep_view().len() == names@.len());
            assert(r@.len() == prev.len() + 1);
            assert(r.deep_view().len() == r@.len());
            assert(r.deep_view().len() == post.len());
            assert forall|j: int| 0 <= j < post.len() implies r.deep_view()[j] == post[j] by {
                if j < i {
                    assert(r@[j] == prev[j]);
                    assert(r.deep_view()[j] == r@[j]@);
                    assert(pre[j] == prev[j]@);
                    assert(pre[j] == spec_stub_paths(cw@, names.deep_view().take(i as int))[j]);
                    assert(names.deep_view().take(i as int)[j] == names.deep_view().take(i + 1)[j]);
                } else {
                    assert(r.deep_view()[j] == r@[j]@);
                    assert(r@[j] == stub);
                    assert(names.deep_view().take(i + 1)[j] == names.deep_view()[i as int]);
                }
            }
            assert(r.deep_view() =~= post);
        }
        i = i + 1;
    }
    proof {
        assert(names.deep_view().take(names@.len() as int) =~= names.deep_view());
    }
    r
}

/// Modification times of the given paths, `None` for a missing file.
fn collect_mtimes(fs: &FsState, paths: &Vec<String>) -> (r: Vec<Option<u64>>)
    requires
        fs.inv(),
    ensures
        r@ == spec_mtimes(fs@, paths.deep_view()),
{
    let mut r: Vec<Option<u64>> = Vec::new();
    let mut i: usize = 0;
    while i < paths.len()
        invariant
            fs.inv(),
            i <= paths@.len(),
            r@.len() == i,
            r@ =~= spec_mtimes(fs@, paths.deep_view().take(i as int)),
        decreases paths@.len() - i,
    {
        r.push(fs.mtime_of(&paths[i]));
        proof {
            assert(r@ =~= spec_mtimes(fs@, paths.deep_view().take(i + 1)));
        }
        i = i + 1;
    }
    proof {
        assert(paths.deep_view().take(paths@.len() as int) =~= paths.deep_view());
    }
    r
}

/// Shape of the action reported for a component: a copy of the unlinked
/// binary exactly when the static set is empty, otherwise a composition
/// with the stubs in classifier order.
pub open spec fn spec_action_shape(
    cw: Seq<(String, String)>,
    c: ComponentSpec,
    a: Option<LinkAction>,
) -> bool {
    match a {
        Some(LinkAction::Copy { source, dest }) => {
            &&& spec_sig(c).len() == 0
            &&& source@ == c.component_wasm@
            &&& dest@ == c.linked_wasm@
        },
        Some(LinkAction::Compose { primary, stubs, dest }) => {
            &&& spec_sig(c).len() > 0
            &&& primary@ == c.component_wasm@
            &&& stubs.deep_view() == spec_stub_paths(cw, spec_sig(c))
            &&& dest@ == c.linked_wasm@
        },
        None => true,
    }
}

/// Links one component: classify, resolve, consult the oracle, then
/// either skip or act and record. Exactly implements [`spec_step`].
pub fn link_component(
    cw: &Vec<(String, String)>,
    c: &ComponentSpec,
    force: bool,
    store: &mut MarkerStore,
    fs: &mut FsState,
) -> (r: (ComponentState, Option<LinkAction>))
    requires
        forall|n: Seq<char>| spec_sig(*c).to_set().contains(n) ==> spec_stub_lookup(cw@, n) is Some,
        old(store).inv(),
        old(fs).inv(),
        old(fs)@.clock < u64::MAX,
        old(fs)@.next_content < u64::MAX,
    ensures
        final(store).inv(),
        final(fs).inv(),
        ({
            let step = spec_step(cw@, *c, force, old(store)@, old(fs)@);
            &&& final(store)@ == step.st
            &&& final(fs)@ == step.fs
            &&& r.0 == step.state
        }),
        r.0 is Skipped <==> r.1 is None,
        spec_action_shape(cw@, *c, r.1),
{
    let ghost step = spec_step(cw@, *c, force, old(store)@, old(fs)@);
    let mut state = ComponentState::Pending;
    let (static_names, _dynamic_names) = classify(&c.dependencies);
    proof {
        assert(static_names.deep_view() == spec_sig(*c));
    }
    let stubs = resolve_stubs(cw, &static_names);
    let id = marker_step_identity(&c.name);
    let marker = compute_marker(id, static_names);
    let stale = !store.is_up_to_date(&marker);
    proof {
        assert(stale == spec_marker_stale(old(store)@, *c));
    }
    let mut input_paths: Vec<String> = Vec::new();
    let mut k: usize = 0;
    while k < stubs.len()
        invariant
            k <= stubs@.len(),
            input_paths@.len() == k,
            input_paths.deep_view() =~= stubs.deep_view().take(k as int),
        decreases stubs@.len() - k,
    {
        let ghost pre = input_paths.deep_view();
        let ghost prev = input_paths@;
        input_paths.push(stubs[k].clone());
        proof {
            assert(stubs.deep_view().len() == stubs@.len());
            assert(input_paths@.len() == prev.len() + 1);
            assert(input_paths.deep_view().len() == input_paths@.len());
            assert forall|j: int| 0 <= j < k + 1 implies input_paths.deep_view()[j]
                == stubs.deep_view().take(k + 1)[j] by {
                assert(input_paths.deep_view()[j] == input_paths@[j]@);
                if j < k {
                    assert(input_paths@[j] == prev[j]);
                    assert(pre[j] == prev[j]@);
                } else {
                    assert(input_paths@[j] == stubs@[k as int]);
                    assert(stubs.deep_view()[j] == stubs@[j]@);
                }
            }
            assert(input_paths.deep_view() =~= stubs.deep_view().take(k + 1));
        }
        k = k + 1;
    }
    input_paths.push(c.component_wasm.clone());
    proof {
        assert(stubs.deep_view().take(stubs@.len() as int) =~= stubs.deep_view());
        assert(input_paths.deep_view() =~= spec_input_paths(cw@, *c));
    }
    let input_times = collect_mtimes(fs, &input_paths);
    let mut output_paths: Vec<String> = Vec::new();
    output_paths.push(c.linked_wasm.clone());
    let output_times = collect_mtimes(fs, &output_paths);
    proof {
        assert(output_paths.deep_view() =~= seq![c.linked_wasm@]);
    }
    if should_skip(force, stale, &input_times, &output_times) {
        state = ComponentState::Skipped;
        proof {
            assert(spec_skip(cw@, *c, force, old(store)@, old(fs)@));
        }
        return (state, None);
    }
    state = ComponentState::Linking;
    proof {
        assert(!spec_skip(cw@, *c, force, old(store)@, old(fs)@));
    }
    let action: LinkAction;
    let ok: bool;
    if stubs.len() == 0 {
        proof {
            assert(spec_sig(*c).len() == 0);
            let inp = spec_mtimes(old(fs)@, spec_input_paths(cw@, *c));
            assert(inp.len() == 1);
            assert(spec_input_paths(cw@, *c)[0] == c.component_wasm@);
            if old(fs)@.files.contains_key(c.component_wasm@) {
                assert forall|i: int| 0 <= i < inp.len() implies inp[i] is Some by {
                    assert(i == 0);
                }
                assert(all_present(inp));
            } else {
                assert(inp[0] is None);
                assert(!all_present(inp));
            }
            assert(all_present(inp) <==> old(fs)@.files.contains_key(c.component_wasm@));
        }
        let res = fs.copy(&c.component_wasm, &c.linked_wasm);
        ok = res.is_ok();
        action = LinkAction::Copy {
            source: c.component_wasm.clone(),
            dest: c.linked_wasm.clone(),
        };
        proof {
            assert(ok == spec_action_ok(cw@, *c, old(fs)@));
            if ok {
                assert(fs@ =~= spec_fs_after(cw@, *c, old(fs)@));
            }
        }
    } else {
        proof {
            assert(spec_sig(*c).len() > 0);
        }
        let res = fs.compose(&c.component_wasm, &stubs, &c.linked_wasm);
        ok = res.is_ok();
        let stubs_copy = stubs.clone();
        proof {
            assert(stubs_copy.deep_view() =~= stubs.deep_view()) by {
                assert forall|i: int| 0 <= i < stubs@.len() implies stubs_copy.deep_view()[i]
                    == stubs.deep_view()[i] by {
                    assert(cloned::<String>(stubs@[i], stubs_copy@[i]));
                    assert(stubs_copy@[i] == stubs@[i]);
                }
            }
        }
        action = LinkAction::Compose {
            primary: c.component_wasm.clone(),
            stubs: stubs_copy,
            dest: c.linked_wasm.clone(),
        };
        proof {
            let inp = spec_mtimes(old(fs)@, spec_input_paths(cw@, *c));
            let paths = spec_input_paths(cw@, *c);
            assert(paths.len() == stubs@.len() + 1);
            assert(forall|i: int| 0 <= i < stubs@.len() ==> paths[i] == stubs.deep_view()[i]);
            assert(paths[stubs@.len() as int] == c.component_wasm@);
            assert((old(fs)@.files.contains_key(c.component_wasm@) && (forall|i: int|
                0 <= i < stubs@.len() ==> old(fs)@.files.contains_key(
                    (#[trigger] stubs@[i])@,
                ))) <==> all_present(inp)) by {
                assert(forall|i: int| 0 <= i < stubs@.len() ==> stubs@[i]@ == stubs.deep_view()[i]);
                if old(fs)@.files.contains_key(c.component_wasm@) && (forall|i: int|
                    0 <= i < stubs@.len() ==> old(fs)@.files.contains_key(
                        (#[trigger] stubs@[i])@,
                    )) {
                    assert forall|i: int| 0 <= i < inp.len() implies inp[i] is Some by {
                        if i < stubs@.len() {
                            assert(old(fs)@.files.contains_key(stubs@[i]@));
                        }
                    }
                }
                if all_present(inp) {
                    assert(inp[stubs@.len() as int] is Some);
                    assert forall|i: int| 0 <= i < stubs@.len() implies old(fs)@.files.contains_key(
                        (#[trigger] stubs@[i])@,
                    ) by {
                        assert(inp[i] is Some);
                    }
                }
            }
            assert(ok == spec_action_ok(cw@, *c, old(fs)@));
            if ok {
                assert(fs@ =~= spec_fs_after(cw@, *c, old(fs)@));
            }
        }
    }
    let outcome: Result<(), LinkError> = if ok {
        Ok(())
    } else {
        Err(
            LinkError::ActionFailed {
                component: c.name.clone(),
                dest: c.linked_wasm.clone(),
            },
        )
    };
    let propagated = store.result(&marker, outcome);
    state = if propagated.is_ok() {
        ComponentState::Linked
    } else {
        ComponentState::Failed
    };
    proof {
        assert(store@ == step.st);
        assert(fs@ == step.fs);
        assert(state == step.state);
    }
    (state, Some(action))
}


/// Per-report state projection of a run's reports.
pub open spec fn states_of(reports: Seq<ComponentReport>) -> Seq<ComponentState> {
    reports.map_values(|r: ComponentReport| r.state)
}

/// Index of the first component declared under `name`.
fn find_component(model: &AppModel, name: &String) -> (r: usize)
    requires
        model.has_component(name@),
    ensures
        r < model.components@.len(),
        model.components@[r as int].name@ == name@,
        spec_find_component(model.components@, name@) == Some(model.components@[r as int]),
{
    let mut i: usize = 0;
    proof {
        assert(model.components@.skip(0) =~= model.components@);
    }
    while i < model.components.len()
        invariant
            model.has_component(name@),
            i <= model.components@.len(),
            spec_find_component(model.components@, name@) == spec_find_component(
                model.components@.skip(i as int),
                name@,
            ),
        decreases model.components@.len() - i,
    {
        proof {
            assert(model.components@.skip(i as int)[0] == model.components@[i as int]);
            assert(model.components@.skip(i as int).drop_first() =~= model.components@.skip(i + 1));
        }
        if model.components[i].name == *name {
            return i;
        }
        i = i + 1;
    }
    proof {
        assert(model.components@.skip(model.components@.len() as int).len() == 0);
        assert(false);
    }
    0
}

/// Links the selected components, in the caller-supplied order, fail-fast:
/// for each one, classify, resolve, consult the oracle, then skip or act
/// and record; the first failure aborts the rest of the run. Exactly
/// implements [`spec_run`], and reports each processed component's
/// terminal state and performed action.
pub fn link_rpc(
    model: &AppModel,
    selected: &Vec<String>,
    force: bool,
    store: &mut MarkerStore,
    fs: &mut FsState,
) -> (r: (Result<(), LinkError>, Vec<ComponentReport>))
    requires
        model.wf(),
        forall|k: int|
            0 <= k < selected@.len() ==> model.has_component((#[trigger] selected@[k])@),
        old(store).inv(),
        old(fs).inv(),
        old(fs)@.clock + selected@.len() <= u64::MAX,
        old(fs)@.next_content + selected@.len() <= u64::MAX,
    ensures
        final(store).inv(),
        final(fs).inv(),
        ({
            let run = spec_run(*model, selected.deep_view(), force, old(store)@, old(fs)@);
            &&& final(store)@ == run.st
            &&& final(fs)@ == run.fs
            &&& states_of(r.1@) == run.states
            &&& (r.0 is Ok <==> run.ok)
        }),
        r.1@.len() <= selected@.len(),
        forall|k: int|
            0 <= k < r.1@.len() ==> (#[trigger] r.1@[k]).component@ == selected@[k]@,
        forall|k: int|
            0 <= k < r.1@.len() ==> ((#[trigger] r.1@[k]).state is Skipped <==> r.1@[k].action
                is None),
        forall|k: int|
            0 <= k < r.1@.len() ==> spec_action_shape(
                model.client_wasms@,
                spec_find_component(model.components@, selected.deep_view()[k])->0,
                (#[trigger] r.1@[k]).action,
            ),
        (match r.0 {
            Ok(_) => r.1@.len() == selected@.len(),
            Err(e) => {
                &&& r.1@.len() >= 1
                &&& r.1@[r.1@.len() - 1].state is Failed
                &&& (match e {
                    LinkError::ActionFailed { component, dest } => {
                        &&& component@ == selected.deep_view()[r.1@.len() - 1]
                        &&& dest@ == (spec_find_component(
                            model.components@,
                            selected.deep_view()[r.1@.len() - 1],
                        )->0).linked_wasm@
                    },
                })
            },
        }),
{
    let ghost st0 = old(store)@;
    let ghost fs0 = old(fs)@;
    let ghost sel = selected.deep_view();
    let ghost full = spec_run(*model, sel, force, st0, fs0);
    let mut reports: Vec<ComponentReport> = Vec::new();
    let mut result: Result<(), LinkError> = Ok(());
    let mut i: usize = 0;
    let mut failed = false;
    proof {
        assert(sel.skip(0) =~= sel);
        assert(sel.len() == selected@.len());
        assert(states_of(reports@) =~= Seq::<ComponentState>::empty());
        assert(full.states =~= states_of(reports@) + spec_run(
            *model,
            sel.skip(0),
            force,
            store@,
            fs@,
        ).states);
    }
    while i < selected.len() && !failed
        invariant
            model.wf(),
            forall|k: int|
                0 <= k < selected@.len() ==> model.has_component((#[trigger] selected@[k])@),
            sel == selected.deep_view(),
            sel.len() == selected@.len(),
            full == spec_run(*model, sel, force, st0, fs0),
            i <= selected@.len(),
            reports@.len() == i,
            store.inv(),
            fs.inv(),
            fs@.clock <= fs0.clock + i,
            fs@.next_content <= fs0.next_content + i,
            fs0.clock + sel.len() <= u64::MAX,
            fs0.next_content + sel.len() <= u64::MAX,
            forall|k: int|
                0 <= k < i ==> (#[trigger] reports@[k]).component@ == selected@[k]@,
            forall|k: int|
                0 <= k < i ==> ((#[trigger] reports@[k]).state is Skipped <==> reports@[k].action
                    is None),
            forall|k: int|
                0 <= k < i ==> spec_action_shape(
                    model.client_wasms@,
                    spec_find_component(model.components@, sel[k])->0,
                    (#[trigger] reports@[k]).action,
                ),
            !failed ==> ({
                let rest = spec_run(*model, sel.skip(i as int), force, store@, fs@);
                &&& full.st == rest.st
                &&& full.fs == rest.fs
                &&& full.states == states_of(reports@) + rest.states
                &&& full.ok == rest.ok
            }),
            !failed ==> result is Ok,
            !failed ==> forall|k: int|
                0 <= k < i ==> !((#[trigger] reports@[k]).state is Failed),
            failed ==> ({
                &&& full.st == store@
                &&& full.fs == fs@
                &&& full.states == states_of(reports@)
                &&& full.ok == false
                &&& i >= 1
                &&& reports@[i - 1].state is Failed
                &&& (match result {
                    Ok(_) => false,
                    Err(e) => (match e {
                        LinkError::ActionFailed { component, dest } => {
                            &&& component@ == sel[i - 1]
                            &&& dest@ == (spec_find_component(
                                model.components@,
                                sel[i - 1],
                            )->0).linked_wasm@
                        },
                    }),
                })
            }),
        decreases selected@.len() - i,
    {
        let ci = find_component(model, &selected[i]);
        let c = &model.components[ci];
        proof {
            assert(sel[i as int] == selected@[i as int]@);
            assert(spec_find_component(model.components@, sel[i as int]) == Some(
                model.components@[ci as int],
            ));
            assert forall|n: Seq<char>|
                spec_sig(model.components@[ci as int]).to_set().contains(n) implies
                spec_stub_lookup(model.client_wasms@, n) is Some by {
                assert(ci < model.components@.len());
            }
        }
        let ghost st_pre = store@;
        let ghost fs_pre = fs@;
        let (state, action) = link_component(&model.client_wasms, c, force, store, fs);
        let ghost step = spec_step(model.client_wasms@, model.components@[ci as int], force, st_pre, fs_pre);
        let rep = ComponentReport { component: selected[i].clone(), state, action };
        let ghost reports_pre = reports@;
        reports.push(rep);
        proof {
            assert(states_of(reports@) =~= states_of(reports_pre).push(state));
            let rest_pre = spec_run(*model, sel.skip(i as int), force, st_pre, fs_pre);
            assert(sel.skip(i as int).len() > 0);
            assert(sel.skip(i as int)[0] == sel[i as int]);
            assert(sel.skip(i as int).drop_first() =~= sel.skip(i + 1));
        }
        if matches!(state, ComponentState::Failed) {
            result = Err(
                LinkError::ActionFailed {
                    component: selected[i].clone(),
                    dest: c.linked_wasm.clone(),
                },
            );
            failed = true;
            proof {
                let rest_pre = spec_run(*model, sel.skip(i as int), force, st_pre, fs_pre);
                assert(rest_pre.st == step.st && rest_pre.fs == step.fs && rest_pre.ok == false);
                assert(rest_pre.states =~= seq![ComponentState::Failed]);
                assert(full.states =~= states_of(reports@));
            }
        } else {
            proof {
                let rest_pre = spec_run(*model, sel.skip(i as int), force, st_pre, fs_pre);
                let rest_post = spec_run(*model, sel.skip(i + 1), force, store@, fs@);
                assert(rest_pre.st == rest_post.st && rest_pre.fs == rest_post.fs && rest_pre.ok
                    == rest_post.ok);
                assert(rest_pre.states =~= seq![state] + rest_post.states);
                assert(states_of(reports_pre) + (seq![state] + rest_post.states) =~= states_of(
                    reports@,
                ) + rest_post.states);
            }
        }
        i = i + 1;
    }
    proof {
        if !failed {
            assert(i == selected@.len());
            assert(sel.skip(i as int).len() == 0);
            let rest = spec_run(*model, sel.skip(i as int), force, store@, fs@);
            assert(rest.states =~= Seq::<ComponentState>::empty());
            assert(full.states =~= states_of(reports@));
        }
    }
    (result, reports)
}


/// The log subject naming a component's dependencies of one kind, in the
/// shape `<kind> WASM RPC dependencies (<a, b>) for <component>`.
pub fn rpc_dependencies_subject(kind: &str, names: &Vec<String>, component: &str) -> (r: String)
    ensures
        r@ == kind@ + " WASM RPC dependencies ("@ + join_with(names.deep_view(), ", "@) + ") for "@
            + component@,
{
    let mut s = String::from_str(kind);
    s.append(" WASM RPC dependencies (");
    let joined = join_strings(names, ", ");
    s.append(joined.as_str());
    s.append(") for ");
    s.append(component);
    s
}

} // verus!
