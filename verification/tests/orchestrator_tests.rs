use novel_translator::orchestrator::{
    Method, ServerState, TransError, TranslatePlan, TranslateStep, TranslationModel,
};
use novel_translator::page::{Activity, Page};
use novel_translator::session::{
    retry_decision, BackendFault, RetryPolicy, RetryStep, Server,
};

fn strings(parts: &[&str]) -> Vec<String> {
    parts.iter().map(|s| s.to_string()).collect()
}

fn connected_model(units: &[&str], method: Method) -> TranslationModel {
    let mut model = TranslationModel::new();
    model.server_state.server = Server::ollama();
    model.server_state.current_model = Some("test-model".to_string());
    model.method = method;
    let page = Page::new("Text/ch1.xhtml".to_string(), strings(units));
    model.set_epub("book.epub".to_string(), vec![page]);
    model
}

#[test]
fn translate_requires_connection() {
    let mut model = TranslationModel::new();
    model.server_state.current_model = Some("m".to_string());
    assert!(matches!(model.translate(0), Err(TransError::NotConnected)));
}

#[test]
fn translate_requires_model() {
    let mut model = TranslationModel::new();
    model.server_state.server = Server::ollama();
    assert!(matches!(model.translate(0), Err(TransError::NoModel)));
}

fn expect_dispatch(step: Result<TranslateStep, TransError>) -> TranslatePlan {
    match step {
        Ok(TranslateStep::Dispatch(plan)) => plan,
        _ => panic!("expected a dispatch plan"),
    }
}

#[test]
fn batch_dispatches_two_units_concurrently() {
    let mut model = connected_model(&["unit A", "unit B"], Method::Batch(6));
    let plan = expect_dispatch(model.translate(0));
    // Both calls sit in one group: they run concurrently.
    assert_eq!(plan.groups.len(), 1);
    assert_eq!(plan.groups[0].len(), 2);
    assert_eq!(plan.groups[0][0].prompt, "unit A");
    assert_eq!(plan.groups[0][1].prompt, "unit B");
    assert_eq!(plan.groups[0][0].part, 0);
    assert_eq!(plan.groups[0][1].part, 1);
    assert_eq!(plan.model, "test-model");
    assert!(plan.advance.is_some());
    assert!(!plan.abort_after);
    // The page is now active with cleared slots.
    assert_eq!(model.pages[0].activity, Activity::Active);
    assert!(model.pages[0].text.iter().all(|t| t.is_empty()));
}

#[test]
fn chain_dispatches_units_one_after_another() {
    let mut model = connected_model(&["unit A", "unit B"], Method::Chain);
    let plan = expect_dispatch(model.translate(0));
    // Each call sits alone in its group: the second starts only after the
    // first group finished.
    assert_eq!(plan.groups.len(), 2);
    assert_eq!(plan.groups[0].len(), 1);
    assert_eq!(plan.groups[1].len(), 1);
    assert_eq!(plan.groups[0][0].prompt, "unit A");
    assert_eq!(plan.groups[1][0].prompt, "unit B");
}

#[test]
fn batches_of_six_split_larger_pages() {
    let units: Vec<String> = (0..8).map(|i| format!("u{}", i)).collect();
    let unit_refs: Vec<&str> = units.iter().map(|s| s.as_str()).collect();
    let mut model = connected_model(&unit_refs, Method::Batch(6));
    let plan = expect_dispatch(model.translate(0));
    assert_eq!(plan.groups.len(), 2);
    assert_eq!(plan.groups[0].len(), 6);
    assert_eq!(plan.groups[1].len(), 2);
}

#[test]
fn translate_past_end_finishes_session() {
    let mut model = connected_model(&["unit"], Method::Chain);
    match model.translate(5) {
        Ok(TranslateStep::Finished { file_name }) => assert_eq!(file_name, "book.epub"),
        _ => panic!("expected the finished step"),
    }
    assert!(model.server_state.handles.is_empty());
}

#[test]
fn streamed_chunks_append_in_order() {
    let mut model = connected_model(&["unit A", "unit B"], Method::Batch(6));
    let plan = expect_dispatch(model.translate(0));
    let h0 = plan.groups[0][0].handle;
    assert!(model.update_content(h0, 0, 0, "Hello "));
    assert!(model.update_content(h0, 0, 0, "world."));
    assert_eq!(model.pages[0].text[0], "Hello world.");
    assert_eq!(model.pages[0].text[1], "");
}

#[test]
fn abort_resets_active_pages_and_blocks_late_chunks() {
    let mut model = connected_model(&["unit A", "unit B"], Method::Batch(6));
    let plan = expect_dispatch(model.translate(0));
    let h0 = plan.groups[0][0].handle;
    assert!(model.update_content(h0, 0, 0, "partial"));
    assert_eq!(model.pages[0].activity, Activity::Active);

    model.abort();

    // Every active page is back to incomplete and no handle survives.
    assert_eq!(model.pages[0].activity, Activity::Incomplete);
    assert!(model.server_state.handles.is_empty());

    // A chunk from the call that was in flight before the abort mutates
    // nothing.
    let before = model.pages[0].text.clone();
    assert!(!model.update_content(h0, 0, 0, " more text"));
    assert_eq!(model.pages[0].text, before);
}

#[test]
fn handles_are_not_reissued_after_abort() {
    let mut model = connected_model(&["unit A"], Method::Chain);
    let plan = expect_dispatch(model.translate(0));
    let old_handle = plan.groups[0][0].handle;
    model.abort();
    let plan2 = expect_dispatch(model.translate(0));
    assert!(plan2.groups[0][0].handle > old_handle);
}

#[test]
fn evaluate_page_applies_heuristic() {
    let mut model = connected_model(&["unit A"], Method::Chain);
    let plan = expect_dispatch(model.translate(0));
    let h = plan.groups[0][0].handle;
    assert!(model.update_content(h, 0, 0, "A fine translated sentence."));
    model.evaluate_page(0);
    assert_eq!(model.pages[0].activity, Activity::Complete);
}

#[test]
fn translate_part_clears_only_that_unit() {
    let mut model = connected_model(&["unit A", "unit B"], Method::Chain);
    let plan = expect_dispatch(model.translate(0));
    let h0 = plan.groups[0][0].handle;
    let h1 = plan.groups[1][0].handle;
    assert!(model.update_content(h0, 0, 0, "left"));
    assert!(model.update_content(h1, 0, 1, "right"));
    let part_plan = model.translate_part(0, 1).unwrap().unwrap();
    assert_eq!(part_plan.groups.len(), 1);
    assert_eq!(part_plan.groups[0].len(), 1);
    assert_eq!(part_plan.groups[0][0].prompt, "unit B");
    assert!(part_plan.abort_after);
    assert_eq!(model.pages[0].text[0], "left");
    assert_eq!(model.pages[0].text[1], "");
}

#[test]
fn save_page_joins_units_with_spaces() {
    let mut model = connected_model(&["a", "b"], Method::Chain);
    let plan = expect_dispatch(model.translate(0));
    let h0 = plan.groups[0][0].handle;
    let h1 = plan.groups[1][0].handle;
    assert!(model.update_content(h0, 0, 0, "one"));
    assert!(model.update_content(h1, 0, 1, "two"));
    assert_eq!(model.save_page(0), Some("one two".to_string()));
    assert_eq!(model.save_page(9), None);
}

#[test]
fn save_pages_takes_complete_pages_and_strips_think_tags() {
    let mut model = connected_model(&["a", "b"], Method::Chain);
    let plan = expect_dispatch(model.translate(0));
    let h0 = plan.groups[0][0].handle;
    let h1 = plan.groups[1][0].handle;
    assert!(model.update_content(h0, 0, 0, "<think>steps</think>First part."));
    assert!(model.update_content(h1, 0, 1, "Second part."));
    model.evaluate_page(0);
    assert_eq!(model.pages[0].activity, Activity::Complete);
    let files = model.save_pages();
    assert_eq!(files.len(), 1);
    assert_eq!(files[0].0, "ch1.md");
    // Each unit sits under its part header; the reasoning trace is gone.
    assert_eq!(
        files[0].1,
        "\n\n<part>1</part>\n\n\n\nFirst part.\n\n\n\n<part>2</part>\n\n\n\nSecond part."
    );
}

#[test]
fn retry_policy_decisions() {
    let policy = RetryPolicy::default();
    assert_eq!(policy.max_attempts, 30);
    assert_eq!(
        retry_decision(&policy, BackendFault::Transient, 0),
        RetryStep::Retry { delay_secs: 10 }
    );
    assert_eq!(
        retry_decision(&policy, BackendFault::Transient, 29),
        RetryStep::Retry { delay_secs: 10 }
    );
    assert_eq!(retry_decision(&policy, BackendFault::Transient, 30), RetryStep::GiveUp);
    assert_eq!(retry_decision(&policy, BackendFault::Hard, 0), RetryStep::GiveUp);
}

#[test]
fn server_state_model_selection() {
    let mut state = ServerState::new();
    assert!(!state.connected());
    state.set_models(strings(&["m1", "m2"]));
    assert_eq!(state.current_model, Some("m1".to_string()));
    state.set_current_model("m2".to_string());
    assert_eq!(state.current_model, Some("m2".to_string()));
    state.set_models(Vec::new());
    assert_eq!(state.current_model, None);
}

#[test]
fn error_messages() {
    assert_eq!(TransError::NotConnected.message(), "Not connected to a server");
    assert_eq!(TransError::NoModel.message(), "No model selected");
}
