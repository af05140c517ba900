use golem_cli::classifier::{classify, Dependency, DependencyType};
use golem_cli::fs_model::FsState;
use golem_cli::link_rpc::{
    link_rpc, rpc_dependencies_subject, AppModel, ComponentSpec, ComponentState, LinkAction,
};
use golem_cli::marker::{compute_marker, MarkerStore};

fn dep(name: &str, dep_type: DependencyType) -> Dependency {
    Dependency {
        name: name.to_string(),
        dep_type,
    }
}

fn component(name: &str, deps: Vec<Dependency>) -> ComponentSpec {
    ComponentSpec {
        name: name.to_string(),
        dependencies: deps,
        component_wasm: format!("build/{}.wasm", name),
        linked_wasm: format!("linked/{}.wasm", name),
    }
}

fn stub(name: &str) -> (String, String) {
    (name.to_string(), format!("stubs/{}.wasm", name))
}

/// Places every input file of the model on the model filesystem.
fn place_inputs(model: &AppModel, fs: &mut FsState) {
    for c in &model.components {
        fs.place_file(&c.component_wasm);
    }
    for (_, path) in &model.client_wasms {
        fs.place_file(path);
    }
}

fn compose_count(reports: &[golem_cli::link_rpc::ComponentReport]) -> usize {
    reports
        .iter()
        .filter(|r| matches!(r.action, Some(LinkAction::Compose { .. })))
        .count()
}

fn copy_count(reports: &[golem_cli::link_rpc::ComponentReport]) -> usize {
    reports
        .iter()
        .filter(|r| matches!(r.action, Some(LinkAction::Copy { .. })))
        .count()
}

#[test]
fn scenario_api_billing_notifications() {
    // Component `api` declares a static dep `billing` and a dynamic dep
    // `notifications`.
    let model = AppModel {
        components: vec![component(
            "api",
            vec![
                dep("billing", DependencyType::StaticWasmRpc),
                dep("notifications", DependencyType::DynamicWasmRpc),
            ],
        )],
        client_wasms: vec![stub("audit"), stub("billing"), stub("notifications")],
    };
    let selected = vec!["api".to_string()];
    let mut store = MarkerStore::new();
    let mut fs = FsState::new();
    place_inputs(&model, &mut fs);

    // Run 1: the billing stub is resolved and composed into api.
    let (res, reports) = link_rpc(&model, &selected, false, &mut store, &mut fs);
    assert!(res.is_ok());
    assert_eq!(reports.len(), 1);
    assert!(matches!(reports[0].state, ComponentState::Linked));
    match &reports[0].action {
        Some(LinkAction::Compose {
            primary,
            stubs,
            dest,
        }) => {
            assert_eq!(primary, "build/api.wasm");
            assert_eq!(stubs, &vec!["stubs/billing.wasm".to_string()]);
            assert_eq!(dest, "linked/api.wasm");
        }
        other => panic!("expected a composition, got {:?}", other),
    }

    // Run 2 (unchanged): skipped, zero compose calls.
    let (res, reports) = link_rpc(&model, &selected, false, &mut store, &mut fs);
    assert!(res.is_ok());
    assert!(matches!(reports[0].state, ComponentState::Skipped));
    assert_eq!(compose_count(&reports), 0);
    assert_eq!(copy_count(&reports), 0);

    // Run 3 (remove `notifications`): still skipped, the hash ignores
    // dynamic dependencies.
    let model3 = AppModel {
        components: vec![component(
            "api",
            vec![dep("billing", DependencyType::StaticWasmRpc)],
        )],
        client_wasms: vec![stub("audit"), stub("billing"), stub("notifications")],
    };
    let (res, reports) = link_rpc(&model3, &selected, false, &mut store, &mut fs);
    assert!(res.is_ok());
    assert!(matches!(reports[0].state, ComponentState::Skipped));
    assert_eq!(compose_count(&reports), 0);

    // Run 4 (add static dep `audit`): relink with the stubs in
    // classifier (lexicographic) order.
    let model4 = AppModel {
        components: vec![component(
            "api",
            vec![
                dep("billing", DependencyType::StaticWasmRpc),
                dep("audit", DependencyType::StaticWasmRpc),
            ],
        )],
        client_wasms: vec![stub("audit"), stub("billing"), stub("notifications")],
    };
    let (res, reports) = link_rpc(&model4, &selected, false, &mut store, &mut fs);
    assert!(res.is_ok());
    assert!(matches!(reports[0].state, ComponentState::Linked));
    match &reports[0].action {
        Some(LinkAction::Compose { stubs, .. }) => {
            assert_eq!(
                stubs,
                &vec![
                    "stubs/audit.wasm".to_string(),
                    "stubs/billing.wasm".to_string()
                ]
            );
        }
        other => panic!("expected a composition, got {:?}", other),
    }
}

#[test]
fn idempotence_two_runs_zero_actions() {
    let model = AppModel {
        components: vec![
            component("api", vec![dep("billing", DependencyType::StaticWasmRpc)]),
            component("worker", vec![]),
        ],
        client_wasms: vec![stub("billing")],
    };
    let selected = vec!["api".to_string(), "worker".to_string()];
    let mut store = MarkerStore::new();
    let mut fs = FsState::new();
    place_inputs(&model, &mut fs);

    let (res, reports) = link_rpc(&model, &selected, false, &mut store, &mut fs);
    assert!(res.is_ok());
    assert_eq!(compose_count(&reports) + copy_count(&reports), 2);

    let (res, reports) = link_rpc(&model, &selected, false, &mut store, &mut fs);
    assert!(res.is_ok());
    assert_eq!(compose_count(&reports) + copy_count(&reports), 0);
    assert!(reports
        .iter()
        .all(|r| matches!(r.state, ComponentState::Skipped)));
}

#[test]
fn set_sensitivity_of_classifier_and_marker() {
    // Reordering and duplicating static dependencies canonicalises to the
    // same signature.
    let (s1, _) = classify(&vec![
        dep("b", DependencyType::StaticWasmRpc),
        dep("a", DependencyType::StaticWasmRpc),
        dep("a", DependencyType::StaticWasmRpc),
    ]);
    let (s2, _) = classify(&vec![
        dep("a", DependencyType::StaticWasmRpc),
        dep("b", DependencyType::StaticWasmRpc),
    ]);
    assert_eq!(s1, vec!["a".to_string(), "b".to_string()]);
    assert_eq!(s1, s2);

    // Adding or removing a static dependency changes the signature, and
    // the marker store detects it.
    let (s3, _) = classify(&vec![dep("a", DependencyType::StaticWasmRpc)]);
    assert_ne!(s1, s3);

    let mut store = MarkerStore::new();
    let marker = compute_marker("link-rpc api".to_string(), s1.clone());
    store.record(&marker, true);
    assert!(store.is_up_to_date(&compute_marker("link-rpc api".to_string(), s2)));
    assert!(!store.is_up_to_date(&compute_marker("link-rpc api".to_string(), s3)));
    assert!(!store.is_up_to_date(&compute_marker("link-rpc other".to_string(), s1)));
}

#[test]
fn dynamic_dependencies_never_trigger_relink() {
    let model = AppModel {
        components: vec![component(
            "api",
            vec![
                dep("billing", DependencyType::StaticWasmRpc),
                dep("events", DependencyType::DynamicWasmRpc),
            ],
        )],
        client_wasms: vec![stub("billing"), stub("events"), stub("metrics")],
    };
    let selected = vec!["api".to_string()];
    let mut store = MarkerStore::new();
    let mut fs = FsState::new();
    place_inputs(&model, &mut fs);

    let (res, _) = link_rpc(&model, &selected, false, &mut store, &mut fs);
    assert!(res.is_ok());

    // Swap the dynamic set entirely: still up to date.
    let model2 = AppModel {
        components: vec![component(
            "api",
            vec![
                dep("metrics", DependencyType::DynamicWasmRpc),
                dep("billing", DependencyType::StaticWasmRpc),
            ],
        )],
        client_wasms: vec![stub("billing"), stub("events"), stub("metrics")],
    };
    let (res, reports) = link_rpc(&model2, &selected, false, &mut store, &mut fs);
    assert!(res.is_ok());
    assert!(matches!(reports[0].state, ComponentState::Skipped));
}

#[test]
fn passthrough_copies_bytes_without_composition() {
    let model = AppModel {
        components: vec![component("solo", vec![])],
        client_wasms: vec![],
    };
    let selected = vec!["solo".to_string()];
    let mut store = MarkerStore::new();
    let mut fs = FsState::new();
    place_inputs(&model, &mut fs);

    let (res, reports) = link_rpc(&model, &selected, false, &mut store, &mut fs);
    assert!(res.is_ok());
    assert_eq!(compose_count(&reports), 0);
    assert_eq!(copy_count(&reports), 1);
    // Byte-identical: the linked output carries the unlinked binary's
    // content.
    let src = fs.content_of(&"build/solo.wasm".to_string());
    let dst = fs.content_of(&"linked/solo.wasm".to_string());
    assert!(src.is_some());
    assert_eq!(src, dst);
}

#[test]
fn failed_action_is_retried_next_run() {
    let model = AppModel {
        components: vec![component(
            "api",
            vec![dep("billing", DependencyType::StaticWasmRpc)],
        )],
        client_wasms: vec![stub("billing")],
    };
    let selected = vec!["api".to_string()];
    let mut store = MarkerStore::new();
    let mut fs = FsState::new();
    place_inputs(&model, &mut fs);
    fs.set_write_fail(&"linked/api.wasm".to_string());

    let (res, reports) = link_rpc(&model, &selected, false, &mut store, &mut fs);
    assert!(res.is_err());
    assert!(matches!(reports[0].state, ComponentState::Failed));
    let message = res.unwrap_err().message();
    assert_eq!(message, "failed to link api into linked/api.wasm");

    // Unchanged inputs: the next run retries rather than skips.
    fs.clear_write_fails();
    let (res, reports) = link_rpc(&model, &selected, false, &mut store, &mut fs);
    assert!(res.is_ok());
    assert!(matches!(reports[0].state, ComponentState::Linked));
    assert_eq!(compose_count(&reports), 1);
}

#[test]
fn externally_deleted_output_is_rebuilt() {
    let model = AppModel {
        components: vec![component(
            "api",
            vec![dep("billing", DependencyType::StaticWasmRpc)],
        )],
        client_wasms: vec![stub("billing")],
    };
    let selected = vec!["api".to_string()];
    let mut store = MarkerStore::new();
    let mut fs = FsState::new();
    place_inputs(&model, &mut fs);

    let (res, _) = link_rpc(&model, &selected, false, &mut store, &mut fs);
    assert!(res.is_ok());

    // The marker is fresh, but the linked output vanishes externally.
    fs.remove_file(&"linked/api.wasm".to_string());
    let (res, reports) = link_rpc(&model, &selected, false, &mut store, &mut fs);
    assert!(res.is_ok());
    assert!(matches!(reports[0].state, ComponentState::Linked));
    assert_eq!(compose_count(&reports), 1);
}

#[test]
fn force_flag_relinks_fresh_components() {
    let model = AppModel {
        components: vec![component("solo", vec![])],
        client_wasms: vec![],
    };
    let selected = vec!["solo".to_string()];
    let mut store = MarkerStore::new();
    let mut fs = FsState::new();
    place_inputs(&model, &mut fs);

    let (res, _) = link_rpc(&model, &selected, false, &mut store, &mut fs);
    assert!(res.is_ok());
    let (res, reports) = link_rpc(&model, &selected, true, &mut store, &mut fs);
    assert!(res.is_ok());
    assert!(matches!(reports[0].state, ComponentState::Linked));
    assert_eq!(copy_count(&reports), 1);
}

#[test]
fn newer_input_invalidates_fresh_marker() {
    let model = AppModel {
        components: vec![component(
            "api",
            vec![dep("billing", DependencyType::StaticWasmRpc)],
        )],
        client_wasms: vec![stub("billing")],
    };
    let selected = vec!["api".to_string()];
    let mut store = MarkerStore::new();
    let mut fs = FsState::new();
    place_inputs(&model, &mut fs);

    let (res, _) = link_rpc(&model, &selected, false, &mut store, &mut fs);
    assert!(res.is_ok());

    // Rebuilding the stub bumps its timestamp past the linked output.
    fs.place_file(&"stubs/billing.wasm".to_string());
    let (res, reports) = link_rpc(&model, &selected, false, &mut store, &mut fs);
    assert!(res.is_ok());
    assert!(matches!(reports[0].state, ComponentState::Linked));
    assert_eq!(compose_count(&reports), 1);
}

#[test]
fn first_failure_aborts_remaining_components() {
    let model = AppModel {
        components: vec![
            component("bad", vec![]),
            component("good", vec![]),
        ],
        client_wasms: vec![],
    };
    let selected = vec!["bad".to_string(), "good".to_string()];
    let mut store = MarkerStore::new();
    let mut fs = FsState::new();
    place_inputs(&model, &mut fs);
    fs.set_write_fail(&"linked/bad.wasm".to_string());

    let (res, reports) = link_rpc(&model, &selected, false, &mut store, &mut fs);
    assert!(res.is_err());
    assert_eq!(reports.len(), 1);
    assert!(matches!(reports[0].state, ComponentState::Failed));
    assert!(!fs.file_exists(&"linked/good.wasm".to_string()));
}

#[test]
fn dependency_subject_formats_joined_names() {
    let names = vec!["audit".to_string(), "billing".to_string()];
    let subject = rpc_dependencies_subject("static", &names, "api");
    assert_eq!(
        subject,
        "static WASM RPC dependencies (audit, billing) for api"
    );
    let empty: Vec<String> = Vec::new();
    assert_eq!(
        rpc_dependencies_subject("dynamic", &empty, "api"),
        "dynamic WASM RPC dependencies () for api"
    );
}
