use keydeck::hub_core::{
    CommandExecutor, CommandInvocation, CommandRegistry, CommandService, CommandStatus, ErrorCode,
    HubError, HubState, PhaseState, ScreenState, StateSnapshot,
};

#[derive(Default)]
struct CountingExecutor {
    calls: usize,
}

impl CommandExecutor for CountingExecutor {
    fn execute(&mut self, invocation: &CommandInvocation) -> Result<String, HubError> {
        self.calls += 1;
        Ok(format!("{} completed", invocation.command_id))
    }
}

struct FailingExecutor;

impl CommandExecutor for FailingExecutor {
    fn execute(&mut self, _invocation: &CommandInvocation) -> Result<String, HubError> {
        Err(HubError::new(ErrorCode::AdapterFailure, "device unplugged"))
    }
}

#[test]
fn command_not_in_allow_list_is_rejected() {
    let registry = CommandRegistry::new(vec!["editor.save".to_string()]);
    let mut service = CommandService::new(registry);
    let mut executor = CountingExecutor::default();

    let outcome = service.invoke(
        CommandInvocation::new("req_disallowed", "shell.run"),
        &mut executor,
    );

    assert_eq!(outcome.result.status, CommandStatus::Rejected);
    assert_eq!(
        outcome.result.error_code,
        Some(ErrorCode::CommandNotAllowed)
    );
    assert_eq!(
        outcome.result.error_code.unwrap().as_str(),
        "COMMAND_NOT_ALLOWED"
    );
    assert!(!outcome.executed);
    assert!(!outcome.replayed);
    assert_eq!(executor.calls, 0);
}

#[test]
fn duplicate_request_id_replays_result_without_second_execution() {
    let registry = CommandRegistry::new(vec!["editor.save".to_string()]);
    let mut service = CommandService::new(registry);
    let mut executor = CountingExecutor::default();
    let invocation = CommandInvocation::new("req_001", "editor.save");

    let first = service.invoke(invocation.clone(), &mut executor);
    let duplicate = service.invoke(invocation, &mut executor);

    assert_eq!(first.result.status, CommandStatus::Success);
    assert!(first.executed);
    assert!(!first.replayed);
    assert_eq!(duplicate.result, first.result);
    assert!(!duplicate.executed);
    assert!(duplicate.replayed);
    assert_eq!(executor.calls, 1);
    assert_eq!(service.completed_request_count(), 1);
}

#[test]
fn screen_and_phase_state_update_independently() {
    let mut state = HubState::default();

    state.set_screen_state(ScreenState::Editor);
    assert_eq!(
        state.snapshot(),
        StateSnapshot {
            screen_state: ScreenState::Editor,
            phase_state: PhaseState::Editing,
        }
    );

    state.set_phase_state(PhaseState::Saved);
    assert_eq!(
        state.snapshot(),
        StateSnapshot {
            screen_state: ScreenState::Editor,
            phase_state: PhaseState::Saved,
        }
    );
}

#[test]
fn a_successful_execution_reports_its_message() {
    let registry = CommandRegistry::new(vec!["editor.save".to_string()]);
    let mut service = CommandService::new(registry);
    let mut executor = CountingExecutor::default();
    let outcome = service.invoke(CommandInvocation::new("r1", "editor.save"), &mut executor);
    assert_eq!(outcome.result.status, CommandStatus::Success);
    assert_eq!(outcome.result.error_code, None);
    assert_eq!(outcome.result.message, "editor.save completed");
}

#[test]
fn a_failed_execution_is_kept_and_replayed_as_failed() {
    let registry = CommandRegistry::new(vec!["editor.save".to_string()]);
    let mut service = CommandService::new(registry);
    let mut executor = FailingExecutor;
    let first = service.invoke(CommandInvocation::new("r1", "editor.save"), &mut executor);
    assert_eq!(first.result.status, CommandStatus::Failed);
    assert_eq!(first.result.error_code, Some(ErrorCode::AdapterFailure));
    assert_eq!(first.result.message, "device unplugged");
    assert!(first.executed);
    let again = service.invoke(CommandInvocation::new("r1", "editor.save"), &mut executor);
    assert!(again.replayed);
    assert_eq!(again.result, first.result);
}

#[test]
fn a_rejected_request_is_replayed_even_after_the_command_becomes_allowed() {
    let mut service = CommandService::new(CommandRegistry::new(vec![]));
    let mut executor = CountingExecutor::default();
    let first = service.invoke(CommandInvocation::new("r1", "editor.save"), &mut executor);
    assert_eq!(first.result.status, CommandStatus::Rejected);
    service.replace_registry(CommandRegistry::new(vec!["editor.save".to_string()]));
    let again = service.invoke(CommandInvocation::new("r1", "editor.save"), &mut executor);
    assert!(again.replayed);
    assert_eq!(again.result.status, CommandStatus::Rejected);
    assert_eq!(executor.calls, 0);
    let fresh = service.invoke(CommandInvocation::new("r2", "editor.save"), &mut executor);
    assert_eq!(fresh.result.status, CommandStatus::Success);
    assert_eq!(executor.calls, 1);
    assert_eq!(service.completed_request_count(), 2);
}

#[test]
fn the_registry_lists_its_ids_sorted_and_once() {
    let mut registry = CommandRegistry::new(vec![
        "b".to_string(),
        "a".to_string(),
        "b".to_string(),
        "c".to_string(),
    ]);
    assert_eq!(registry.allowed_command_ids(), vec!["a", "b", "c"]);
    assert!(registry.is_allowed("a"));
    assert!(!registry.is_allowed("d"));
    registry.replace(vec!["d".to_string()]);
    assert!(registry.is_allowed("d"));
    assert!(!registry.is_allowed("a"));
    assert_eq!(registry.allowed_command_ids(), vec!["d"]);
}

#[test]
fn error_codes_and_states_have_their_wire_names() {
    assert_eq!(ErrorCode::InvalidToken.as_str(), "INVALID_TOKEN");
    assert_eq!(ErrorCode::MalformedMessage.as_str(), "MALFORMED_MESSAGE");
    assert_eq!(ErrorCode::RevisionConflict.as_str(), "REVISION_CONFLICT");
    assert_eq!(ErrorCode::AdapterFailure.as_str(), "ADAPTER_FAILURE");
    assert_eq!(ErrorCode::InternalError.as_str(), "INTERNAL_ERROR");
    assert_eq!(ScreenState::Idle.as_str(), "idle");
    assert_eq!(ScreenState::Editor.as_str(), "editor");
    assert_eq!(PhaseState::Editing.as_str(), "editing");
    assert_eq!(PhaseState::Saved.as_str(), "saved");
}

#[test]
fn invocations_start_without_arguments() {
    let invocation = CommandInvocation::new("r9", "editor.save");
    assert_eq!(invocation.request_id, "r9");
    assert_eq!(invocation.command_id, "editor.save");
    assert!(invocation.args.is_empty());
    let state = HubState::new(ScreenState::Idle, PhaseState::Saved);
    assert_eq!(
        state.snapshot(),
        StateSnapshot {
            screen_state: ScreenState::Idle,
            phase_state: PhaseState::Saved,
        }
    );
    let error = HubError::new(ErrorCode::InvalidToken, "bad token");
    assert_eq!(error.message, "bad token");
}
