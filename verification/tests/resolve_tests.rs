use git_wt::inventory::WorktreeRecord;
use git_wt::resolve::{path_for_selection, resolve_worktree, Candidate, Resolution};

fn inventory(entries: &[(&str, &str)]) -> Vec<WorktreeRecord> {
    let mut recs = Vec::new();
    for (branch, path) in entries {
        recs.push(WorktreeRecord { branch: branch.to_string(), path: path.to_string() });
    }
    recs
}

#[test]
fn exact_match_wins_over_near_matches() {
    let recs = inventory(&[("ma", "/r/ma"), ("main", "/r/main"), ("maine", "/r/maine")]);
    match resolve_worktree(&recs, "main") {
        Resolution::Found { path } => assert_eq!(path, "/r/main"),
        _ => panic!("expected an exact match"),
    }
}

#[test]
fn exact_match_first_occurrence_is_canonical() {
    let recs = inventory(&[("main", "/first"), ("main", "/second")]);
    match resolve_worktree(&recs, "main") {
        Resolution::Found { path } => assert_eq!(path, "/first"),
        _ => panic!("expected an exact match"),
    }
}

#[test]
fn single_fuzzy_candidate_needs_no_prompt() {
    let recs = inventory(&[("main", "/r/main"), ("develop", "/r/develop")]);
    match resolve_worktree(&recs, "dev") {
        Resolution::Found { path } => assert_eq!(path, "/r/develop"),
        _ => panic!("expected the single fuzzy candidate"),
    }
}

#[test]
fn no_subsequence_overlap_is_not_found() {
    let recs = inventory(&[("main", "/r/main"), ("develop", "/r/develop")]);
    assert!(matches!(resolve_worktree(&recs, "zzz"), Resolution::NotFound));
}

#[test]
fn empty_inventory_is_not_found() {
    let recs: Vec<WorktreeRecord> = Vec::new();
    assert!(matches!(resolve_worktree(&recs, "main"), Resolution::NotFound));
}

#[test]
fn equal_scores_keep_inventory_order() {
    let recs = inventory(&[("feature-a", "/r/a"), ("feature-b", "/r/b")]);
    match resolve_worktree(&recs, "feature") {
        Resolution::Ambiguous { candidates } => {
            assert_eq!(candidates.len(), 2);
            assert_eq!(candidates[0].score, candidates[1].score);
            assert_eq!(candidates[0].branch, "feature-a");
            assert_eq!(candidates[1].branch, "feature-b");
            assert_eq!(candidates[0].inv_index, 0);
            assert_eq!(candidates[1].inv_index, 1);
        },
        _ => panic!("expected two tied candidates"),
    }
    // The same two branches handed over in the other order come back in
    // that other order: the tie is broken by inventory position alone.
    let recs = inventory(&[("feature-b", "/r/b"), ("feature-a", "/r/a")]);
    match resolve_worktree(&recs, "feature") {
        Resolution::Ambiguous { candidates } => {
            assert_eq!(candidates[0].branch, "feature-b");
            assert_eq!(candidates[1].branch, "feature-a");
        },
        _ => panic!("expected two tied candidates"),
    }
}

#[test]
fn higher_score_sorts_first() {
    // A contiguous run outscores the same characters scattered, so the
    // later inventory entry must be presented first.
    let recs = inventory(&[("a-l-p-h-a-x", "/r/scattered"), ("alphax", "/r/contiguous")]);
    match resolve_worktree(&recs, "alpha") {
        Resolution::Ambiguous { candidates } => {
            assert_eq!(candidates.len(), 2);
            assert!(candidates[0].score > candidates[1].score);
            assert_eq!(candidates[0].branch, "alphax");
            assert_eq!(candidates[0].path, "/r/contiguous");
        },
        _ => panic!("expected two scored candidates"),
    }
}

#[test]
fn selection_lookup_finds_first_matching_label() {
    let cands = vec![
        Candidate {
            score: 5,
            inv_index: 0,
            branch: "feature-a".to_string(),
            path: "/r/a".to_string(),
        },
        Candidate {
            score: 5,
            inv_index: 1,
            branch: "feature-b".to_string(),
            path: "/r/b".to_string(),
        },
    ];
    assert_eq!(path_for_selection(&cands, "feature-b"), Some("/r/b".to_string()));
    assert_eq!(path_for_selection(&cands, "feature-c"), None);
}
