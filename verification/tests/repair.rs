use rxplain::diagnostics::{CompilerSuggestion, ParsedError};
use rxplain::patch::{Edit, Patch};
use rxplain::repair::{
    candidates_for_error, patch_signature, rank_candidates, Confidence, RepairCandidate,
    RepairHistory, RepairKind,
};

fn suggestion_patch(kind: RepairKind) -> RepairCandidate {
    RepairCandidate {
        kind,
        confidence: Confidence::High,
        description: "test".to_string(),
        evidence: Vec::new(),
        patch: Patch::new(vec![Edit::new("src/main.rs", 1, 1, 1, "x")]),
    }
}

#[test]
fn ranking_prefers_compiler_suggestion_and_fewer_edits() {
    let mut candidates = vec![
        suggestion_patch(RepairKind::Clone),
        suggestion_patch(RepairKind::CompilerSuggested),
    ];

    candidates[0].patch = Patch::new(vec![
        Edit::new("src/main.rs", 1, 1, 1, "x"),
        Edit::new("src/main.rs", 2, 1, 1, "x"),
    ]);

    let ranked = rank_candidates(candidates);

    assert_eq!(ranked[0].kind, RepairKind::CompilerSuggested);
}

#[test]
fn history_detects_repeated_patches() {
    let mut history = RepairHistory::new();

    let patch = Patch::new(vec![Edit::new("src/main.rs", 1, 1, 1, "x")]);

    assert!(history.record_patch(&patch), "first occurrence is new");
    assert!(!history.record_patch(&patch), "repeat is blocked");
}

#[test]
fn history_contains_detects_attempted_patch() {
    let mut history = RepairHistory::new();

    let patch = Patch::new(vec![Edit::new("src/main.rs", 1, 1, 1, "x")]);

    assert!(!history.contains(&patch));
    history.record_patch(&patch);
    assert!(history.contains(&patch));
}

#[test]
fn candidate_generation_from_suggestion() {
    let error = ParsedError {
        code: "E0594".to_string(),
        raw_message: "cannot assign".to_string(),
        spans: Vec::new(),
        suggestions: vec![CompilerSuggestion {
            file: "src/main.rs".to_string(),
            line: 1,
            column: 9,
            column_end: 12,
            replacement: "&mut ".to_string(),
            applicability: "MachineApplicable".to_string(),
            label: Some("change to mutable".to_string()),
        }],
    };

    let candidates = candidates_for_error(&error);

    assert_eq!(candidates.len(), 1);
    assert_eq!(candidates[0].kind, RepairKind::CompilerSuggested);
    assert_eq!(candidates[0].confidence, Confidence::High);
    assert_eq!(candidates[0].patch.edits.len(), 1);
}

#[test]
fn e0382_without_suggestion_yields_no_fabricated_patch() {
    let error = ParsedError {
        code: "E0382".to_string(),
        raw_message: "use of moved value".to_string(),
        spans: Vec::new(),
        suggestions: Vec::new(),
    };

    let candidates = candidates_for_error(&error);

    assert!(candidates.is_empty(), "without compiler evidence we must not fabricate a patch");
}

#[test]
fn suggestion_candidate_text_is_exact() {
    let error = ParsedError {
        code: "E0594".to_string(),
        raw_message: "cannot assign".to_string(),
        spans: Vec::new(),
        suggestions: vec![CompilerSuggestion {
            file: "src/main.rs".to_string(),
            line: 12,
            column: 9,
            column_end: 12,
            replacement: "&mut ".to_string(),
            applicability: "MaybeIncorrect".to_string(),
            label: None,
        }],
    };
    let c = &candidates_for_error(&error)[0];
    assert_eq!(c.confidence, Confidence::Low);
    assert_eq!(c.description, "Apply the compiler-suggested change at src/main.rs:12.");
    assert_eq!(c.evidence, vec!["Applicability: MaybeIncorrect", "Replace src/main.rs:12-9 with `&mut `"]);
    assert_eq!(c.patch.edits[0].start_col, 9);
    assert_eq!(c.patch.edits[0].end_col, 12);
}

#[test]
fn kind_and_confidence_names() {
    assert_eq!(RepairKind::CompilerSuggested.as_str(), "compiler_suggested");
    assert_eq!(RepairKind::ArgumentAdjustment.as_str(), "argument_adjustment");
    assert_eq!(RepairKind::Other.as_str(), "other");
    assert_eq!(Confidence::High.as_str(), "high");
    assert_eq!(Confidence::Medium.as_str(), "medium");
    assert_eq!(Confidence::Low.as_str(), "low");
}

#[test]
fn ranking_is_stable_for_equal_scores() {
    let mut a = suggestion_patch(RepairKind::Borrow);
    a.description = "first".to_string();
    let mut b = suggestion_patch(RepairKind::Borrow);
    b.description = "second".to_string();
    let mut c = suggestion_patch(RepairKind::CompilerSuggested);
    c.confidence = Confidence::Low;
    let ranked = rank_candidates(vec![a, b, c]);
    assert_eq!(ranked[0].kind, RepairKind::CompilerSuggested);
    assert_eq!(ranked[1].description, "first");
    assert_eq!(ranked[2].description, "second");
}

#[test]
fn signature_is_exact_and_ignores_edit_order() {
    let one = Patch::new(vec![
        Edit::new("src/main.rs", 2, 1, 3, "b"),
        Edit::new("src/main.rs", 1, 5, 5, "a"),
    ]);
    let two = Patch::new(vec![
        Edit::new("src/main.rs", 1, 5, 5, "a"),
        Edit::new("src/main.rs", 2, 1, 3, "b"),
    ]);
    assert_eq!(patch_signature(&one), "src/main.rs:1:5-5:a|src/main.rs:2:1-3:b");
    assert_eq!(patch_signature(&one), patch_signature(&two));
    assert_eq!(patch_signature(&Patch::new(Vec::new())), "");
}
