use golem_cli::log::{
    log_action, log_action_plan, log_error_action, log_skipping_up_to_date, log_warn_action,
    logln, set_log_output, LogIndent, LogOutput, LogState, Output, OverwriteSafeAction,
    OverwriteSafeActionPlan,
};

fn last_line(state: &LogState) -> &(Output, String) {
    state.lines.last().expect("a line should have been emitted")
}

#[test]
fn action_lines_carry_indentation() {
    let mut state = LogState::new();
    log_action(&mut state, "Linking", "RPC");
    assert_eq!(last_line(&state).1, "Linking RPC");

    let indent = LogIndent::new(&mut state);
    log_action(&mut state, "Copying", "solo.wasm");
    assert_eq!(last_line(&state).1, "  Copying solo.wasm");

    let inner = LogIndent::prefix(&mut state, "| ");
    logln(&mut state, "detail");
    assert_eq!(last_line(&state).1, "  | detail");
    inner.release(&mut state);

    log_warn_action(&mut state, "Skipping", "x");
    assert_eq!(last_line(&state).1, "  Skipping x");
    indent.release(&mut state);

    log_error_action(&mut state, "Failed", "y");
    assert_eq!(last_line(&state).1, "Failed y");
}

#[test]
fn dec_indent_on_empty_stack_is_harmless() {
    let mut state = LogState::new();
    state.dec_indent();
    log_action(&mut state, "A", "b");
    assert_eq!(last_line(&state).1, "A b");
}

#[test]
fn output_selection_and_restoration() {
    let mut state = LogState::new();
    set_log_output(&mut state, Output::Stderr);
    log_action(&mut state, "A", "b");
    assert!(matches!(last_line(&state).0, Output::Stderr));

    let handle = LogOutput::new(&mut state, Output::TracingDebug);
    log_action(&mut state, "C", "d");
    assert!(matches!(last_line(&state).0, Output::TracingDebug));
    handle.release(&mut state);
    log_action(&mut state, "E", "f");
    assert!(matches!(last_line(&state).0, Output::Stderr));
}

#[test]
fn silent_output_discards_lines() {
    let mut state = LogState::new();
    set_log_output(&mut state, Output::Silent);
    log_action(&mut state, "A", "b");
    logln(&mut state, "c");
    assert!(state.lines.is_empty());
}

#[test]
fn skipping_up_to_date_message() {
    let mut state = LogState::new();
    log_skipping_up_to_date(&mut state, "linking RPC for api");
    assert_eq!(last_line(&state).1, "Skipping linking RPC for api, UP-TO-DATE");
}

#[test]
fn action_plan_messages() {
    let mut state = LogState::new();
    let copy = OverwriteSafeAction::CopyFile {
        source: "a".to_string(),
        target: "b".to_string(),
    };
    log_action_plan(&mut state, &copy, OverwriteSafeActionPlan::Create);
    assert_eq!(last_line(&state).1, "Copying a to b");
    log_action_plan(&mut state, &copy, OverwriteSafeActionPlan::Overwrite);
    assert_eq!(last_line(&state).1, "Overwriting b with a");
    log_action_plan(&mut state, &copy, OverwriteSafeActionPlan::SkipSameContent);
    assert_eq!(
        last_line(&state).1,
        "Skipping copying a to b, content already up-to-date"
    );

    let transformed = OverwriteSafeAction::CopyFileTransformed {
        source: "a".to_string(),
        target: "b".to_string(),
        content: "x".to_string(),
    };
    log_action_plan(&mut state, &transformed, OverwriteSafeActionPlan::Create);
    assert_eq!(last_line(&state).1, "Copying a to b transformed");

    let write = OverwriteSafeAction::WriteFile {
        content: "x".to_string(),
        target: "c".to_string(),
    };
    log_action_plan(&mut state, &write, OverwriteSafeActionPlan::Create);
    assert_eq!(last_line(&state).1, "Creating c");
    log_action_plan(&mut state, &write, OverwriteSafeActionPlan::Overwrite);
    assert_eq!(last_line(&state).1, "Overwriting c");
    log_action_plan(&mut state, &write, OverwriteSafeActionPlan::SkipSameContent);
    assert_eq!(
        last_line(&state).1,
        "Skipping generating c, content already up-to-date"
    );
}
