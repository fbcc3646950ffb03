use rxplain::diagnostics::{CompilerSuggestion, ParsedError};
use rxplain::engine::{
    candidates_for, parse_unsigned_exec, ApplyOutcome, EngineConfig, Planner, RepairAction,
    RepairRun, RepairStatus, Stage,
};
use rxplain::repair::RepairHistory;
use rxplain::verification::VerificationResult;

#[test]
fn status_strings_are_stable_for_json_consumers() {
    assert_eq!(RepairStatus::Verified.as_str(), "repair_applied");
    assert_eq!(RepairStatus::NothingToRepair.as_str(), "nothing_to_repair");
    assert_eq!(RepairStatus::Preview.as_str(), "preview");
    assert_eq!(RepairStatus::MultipleVerifiedRepairs.as_str(), "multiple_verified");
    assert_eq!(RepairStatus::HumanReviewRequired.as_str(), "human_review_required");
    assert_eq!(RepairStatus::RepairAttempted.as_str(), "repair_attempted");
}

#[test]
fn config_uses_conservative_defaults() {
    let config = EngineConfig::from_env(None, None, None);
    assert!(config.max_attempts >= 1);
    assert!(config.max_candidates >= 1);
}

#[test]
fn config_defaults_are_four_ten_and_five() {
    let config = EngineConfig::from_env(None, None, None);
    assert_eq!(config.max_attempts, 4);
    assert_eq!(config.max_candidates, 10);
    assert_eq!(config.max_alternative_checks, 5);
}

#[test]
fn config_reads_values_and_falls_back_on_garbage() {
    let config = EngineConfig::from_env(Some("7"), Some("+3"), Some("abc"));
    assert_eq!(config.max_attempts, 7);
    assert_eq!(config.max_candidates, 3);
    assert_eq!(config.max_alternative_checks, 5);
    let config = EngineConfig::from_env(Some("4294967296"), Some(""), Some("-1"));
    assert_eq!(config.max_attempts, 4);
    assert_eq!(config.max_candidates, 10);
    assert_eq!(config.max_alternative_checks, 5);
}

#[test]
fn unsigned_parsing_matches_str_parse() {
    for text in ["0", "42", "+42", "007", "4294967295", "4294967296", "", "+", "-1", " 1", "1 ", "1a"] {
        let expected = text.parse::<u32>().ok().map(|v| v as u64);
        assert_eq!(parse_unsigned_exec(text, u32::MAX as u64), expected, "input {:?}", text);
    }
}

fn suggestion_error(code: &str, replacement: &str, applicability: &str) -> ParsedError {
    ParsedError {
        code: code.to_string(),
        raw_message: "cannot assign".to_string(),
        spans: Vec::new(),
        suggestions: vec![CompilerSuggestion {
            file: "src/main.rs".to_string(),
            line: 2,
            column: 9,
            column_end: 9,
            replacement: replacement.to_string(),
            applicability: applicability.to_string(),
            label: None,
        }],
    }
}

fn passed(ok: bool) -> VerificationResult {
    VerificationResult {
        passed: ok,
        exit_status: ok,
        stdout: String::new(),
        stderr: String::new(),
        duration_ms: 5,
        command: "cargo check --message-format=json".to_string(),
    }
}

fn config() -> EngineConfig {
    EngineConfig { max_attempts: 4, max_candidates: 10, max_alternative_checks: 5 }
}

#[test]
fn run_without_errors_reports_no_diagnostic() {
    let (run, action) = RepairRun::start(Vec::new(), Planner::CompilerSuggestions, false, config());
    assert!(matches!(action, RepairAction::Finish));
    assert_eq!(run.report.status, RepairStatus::NoDiagnostic);
}

#[test]
fn run_that_does_not_reproduce_has_nothing_to_repair() {
    let errors = vec![suggestion_error("E0384", "mut ", "MachineApplicable")];
    let (mut run, action) = RepairRun::start(errors, Planner::CompilerSuggestions, false, config());
    assert!(matches!(action, RepairAction::Reproduce));
    let action = run.on_reproduced(Ok(false));
    assert!(matches!(action, RepairAction::Finish));
    assert_eq!(run.report.status, RepairStatus::NothingToRepair);
}

#[test]
fn dry_run_previews_candidates_without_a_workspace() {
    let errors = vec![suggestion_error("E0384", "mut ", "MachineApplicable")];
    let (mut run, _) = RepairRun::start(errors, Planner::CompilerSuggestions, true, config());
    let action = run.on_reproduced(Ok(true));
    assert!(matches!(action, RepairAction::Finish));
    assert_eq!(run.report.status, RepairStatus::Preview);
    assert_eq!(run.report.proposed.len(), 1);
    assert!(run.report.attempted.is_empty());
}

#[test]
fn verified_candidate_is_handed_over() {
    let errors = vec![suggestion_error("E0384", "mut ", "MachineApplicable")];
    let (mut run, _) = RepairRun::start(errors, Planner::CompilerSuggestions, false, config());
    let action = run.on_reproduced(Ok(true));
    assert!(matches!(action, RepairAction::CreateWorkspace));
    let action = run.on_workspace(Ok(()));
    match &action {
        RepairAction::ApplyPatch { patch } => assert_eq!(patch.edits[0].replacement, "mut "),
        other => panic!("unexpected action {:?}", other),
    }
    let action = run.on_applied(ApplyOutcome::Applied);
    assert!(matches!(action, RepairAction::Verify));
    let action = run.on_verified(Ok(passed(true)), Vec::new());
    assert!(matches!(action, RepairAction::Finish));
    assert_eq!(run.report.status, RepairStatus::Verified);
    assert!(run.report.is_verified());
    assert_eq!(run.report.applied.len(), 1);
    assert_eq!(run.report.attempts, 1);
    assert_eq!(run.stage, Stage::Done);
}

#[test]
fn failing_candidate_is_not_retried_and_run_stops() {
    let errors = vec![suggestion_error("E0384", "mut ", "MachineApplicable")];
    let (mut run, _) = RepairRun::start(rxplain::diagnostics::clone_errors(&errors), Planner::CompilerSuggestions, false, config());
    run.on_reproduced(Ok(true));
    run.on_workspace(Ok(()));
    run.on_applied(ApplyOutcome::Applied);
    // The oracle still reports the same error: the same patch is in the
    // history, so no new candidate remains.
    let action = run.on_verified(Ok(passed(false)), errors);
    assert!(matches!(action, RepairAction::Finish));
    assert_eq!(run.report.status, RepairStatus::RepairAttempted);
    assert_eq!(run.report.attempts, 1);
    assert!(run.report.applied.is_empty());
    assert_eq!(
        run.report.attempted[0].rejected_reason.as_deref(),
        Some("`cargo check` failed in the isolated workspace")
    );
}

#[test]
fn invalid_patch_is_recorded_with_its_reason() {
    let errors = vec![suggestion_error("E0384", "mut ", "MachineApplicable")];
    let (mut run, _) = RepairRun::start(errors, Planner::CompilerSuggestions, false, config());
    run.on_reproduced(Ok(true));
    run.on_workspace(Ok(()));
    let action = run.on_applied(ApplyOutcome::Invalid { message: "edit line 2 out of range".to_string() });
    assert!(matches!(action, RepairAction::Finish));
    assert_eq!(
        run.report.attempted[0].rejected_reason.as_deref(),
        Some("invalid patch: edit line 2 out of range")
    );
    assert_eq!(run.report.status, RepairStatus::RepairAttempted);
}

#[test]
fn workspace_failure_stops_the_run() {
    let errors = vec![suggestion_error("E0384", "mut ", "MachineApplicable")];
    let (mut run, _) = RepairRun::start(errors, Planner::CompilerSuggestions, false, config());
    run.on_reproduced(Ok(true));
    match run.on_workspace(Err("disk full".to_string())) {
        RepairAction::Fail { message } => {
            assert_eq!(message, "could not create isolated workspace: disk full")
        }
        other => panic!("unexpected action {:?}", other),
    }
}

#[test]
fn isolation_error_is_recorded_and_reported() {
    let errors = vec![ParsedError {
        code: "E0999".to_string(),
        raw_message: "something".to_string(),
        spans: Vec::new(),
        suggestions: Vec::new(),
    }];
    let (mut run, _) = RepairRun::start(errors, Planner::CompilerSuggestions, false, config());
    let action = run.on_reproduced(Err("copy failed".to_string()));
    assert!(matches!(action, RepairAction::Finish));
    assert_eq!(run.report.status, RepairStatus::HumanReviewRequired);
    assert_eq!(run.report.isolation_error.as_deref(), Some("copy failed"));
}

#[test]
fn transformation_planner_asks_for_sources() {
    let errors = vec![suggestion_error("E0384", "mut ", "MaybeIncorrect")];
    let (mut run, _) = RepairRun::start(errors, Planner::Transformations, true, config());
    match run.on_reproduced(Ok(true)) {
        RepairAction::ReadSources { errors } => assert_eq!(errors.len(), 1),
        other => panic!("unexpected action {:?}", other),
    }
    let action = run.on_sources(vec!["fn main() {\n    let x = 1;\n}\n".to_string()]);
    assert!(matches!(action, RepairAction::Finish));
    assert_eq!(run.report.status, RepairStatus::Preview);
    assert_eq!(run.report.proposed.len(), 1);
}

#[test]
fn candidates_skip_patches_in_history() {
    let errors = vec![suggestion_error("E0384", "mut ", "MachineApplicable")];
    let mut history = RepairHistory::new();
    let first = candidates_for(Planner::CompilerSuggestions, &errors, &Vec::new(), &history, 10);
    assert_eq!(first.len(), 1);
    history.record_patch(&first[0].patch);
    let second = candidates_for(Planner::CompilerSuggestions, &errors, &Vec::new(), &history, 10);
    assert!(second.is_empty());
    let capped = candidates_for(Planner::CompilerSuggestions, &errors, &Vec::new(), &RepairHistory::new(), 0);
    assert!(capped.is_empty());
}
