use git_wt::errors::WtError;
use git_wt::inventory::WorktreeRecord;
use git_wt::lifecycle::{
    base_ref_of, cd_output_line, common_dir_command, current_worktree_branch, decide_removal,
    fetch_command, local_branch_probe, plan_add, plan_clone, pull_command, ref_probe,
    repo_check_command, worktree_list_command, worktree_path_for, worktree_root_of, RmDecision,
};

fn args_of(v: &[&str]) -> Vec<String> {
    v.iter().map(|s| s.to_string()).collect()
}

#[test]
fn probe_and_query_commands() {
    let c = repo_check_command();
    assert_eq!(c.program, "git");
    assert_eq!(c.args, args_of(&["rev-parse", "--git-dir"]));
    assert_eq!(c.cwd, None);

    let c = common_dir_command();
    assert_eq!(c.args, args_of(&["rev-parse", "--git-common-dir"]));

    let c = worktree_list_command();
    assert_eq!(c.args, args_of(&["worktree", "list", "--porcelain"]));

    let c = local_branch_probe("feature-x");
    assert_eq!(c.args, args_of(&["rev-parse", "--verify", "refs/heads/feature-x"]));

    let c = ref_probe("origin/feature-x");
    assert_eq!(c.args, args_of(&["rev-parse", "--verify", "origin/feature-x"]));
}

#[test]
fn fetch_uses_prune() {
    let c = fetch_command();
    assert_eq!(c.program, "git");
    assert_eq!(c.args, args_of(&["fetch", "origin", "--prune"]));
    assert_eq!(c.cwd, None);
}

#[test]
fn pull_runs_in_resolved_worktree() {
    let c = pull_command("/repo/main");
    assert_eq!(c.args, args_of(&["pull"]));
    assert_eq!(c.cwd, Some("/repo/main".to_string()));
}

#[test]
fn switch_output_is_exactly_the_cd_line() {
    assert_eq!(cd_output_line("/repo/main"), "CD:/repo/main\n");
}

#[test]
fn add_reuses_existing_local_branch() {
    let p = plan_add("/r/feature-x", "feature-x", "origin/feature-x", true, true);
    assert_eq!(p.command.args, args_of(&["worktree", "add", "/r/feature-x", "feature-x"]));
    assert!(p.note.is_none());
    assert_eq!(p.success_output, "CD:/r/feature-x\n");
}

#[test]
fn add_branches_from_existing_base_ref() {
    let p = plan_add("/r/feature-x", "feature-x", "origin/feature-x", false, true);
    assert_eq!(
        p.command.args,
        args_of(&["worktree", "add", "/r/feature-x", "-b", "feature-x", "origin/feature-x"])
    );
    assert!(p.note.is_none());
}

#[test]
fn add_falls_back_to_head_with_a_note() {
    let p = plan_add("/r/feature-x", "feature-x", "origin/feature-x", false, false);
    assert_eq!(
        p.command.args,
        args_of(&["worktree", "add", "/r/feature-x", "-b", "feature-x", "HEAD"])
    );
    assert_eq!(
        p.note,
        Some("Note: origin/feature-x doesn't exist, creating from HEAD".to_string())
    );
    assert_eq!(p.success_output, "CD:/r/feature-x\n");
}

#[test]
fn removal_only_after_affirmative_confirmation() {
    match decide_removal(Some(true), "/r/x", false) {
        RmDecision::Remove { command } => {
            assert_eq!(command.args, args_of(&["worktree", "remove", "/r/x"]));
        },
        RmDecision::Cancelled => panic!("confirmed removal must run"),
    }
    match decide_removal(Some(true), "/r/x", true) {
        RmDecision::Remove { command } => {
            assert_eq!(command.args, args_of(&["worktree", "remove", "--force", "/r/x"]));
        },
        RmDecision::Cancelled => panic!("confirmed removal must run"),
    }
}

#[test]
fn cancelled_confirmation_runs_nothing() {
    assert!(matches!(decide_removal(None, "/r/x", false), RmDecision::Cancelled));
    assert!(matches!(decide_removal(Some(false), "/r/x", false), RmDecision::Cancelled));
    assert!(matches!(decide_removal(None, "/r/x", true), RmDecision::Cancelled));
    // and the clean termination carries exit code 0
    assert_eq!(WtError::Cancelled.exit_code(), 0);
}

#[test]
fn current_worktree_is_matched_exactly() {
    let recs = vec![
        WorktreeRecord { branch: "main".to_string(), path: "/r/main".to_string() },
        WorktreeRecord { branch: "feature".to_string(), path: "/r/feature".to_string() },
    ];
    assert_eq!(current_worktree_branch(&recs, "/r/feature"), Some("feature".to_string()));
    assert_eq!(current_worktree_branch(&recs, "/r/main"), Some("main".to_string()));
    assert_eq!(current_worktree_branch(&recs, "/r/feature/sub"), None);
    assert_eq!(current_worktree_branch(&recs, "/elsewhere"), None);
}

#[test]
fn clone_plan_derives_directory_from_url() {
    let p = plan_clone("https://example.com/owner/repo.git", None);
    assert_eq!(p.dir_name, "repo");
    assert_eq!(p.clone_cmd.program, "git");
    assert_eq!(
        p.clone_cmd.args,
        args_of(&["clone", "--bare", "https://example.com/owner/repo.git", ".bare"])
    );
    assert_eq!(p.clone_cmd.cwd, Some("repo".to_string()));
    assert_eq!(p.pointer_contents, "gitdir: ./.bare\n");
    assert_eq!(
        p.config_cmd.args,
        args_of(&["config", "remote.origin.fetch", "+refs/heads/*:refs/remotes/origin/*"])
    );
    assert_eq!(p.config_cmd.cwd, Some("repo".to_string()));
    assert_eq!(p.fetch_cmd.args, args_of(&["fetch", "origin"]));
    assert_eq!(p.fetch_cmd.cwd, Some("repo".to_string()));
    assert_eq!(p.success_output, "CD:repo\n");
}

#[test]
fn clone_plan_explicit_name_and_odd_urls() {
    let p = plan_clone("https://example.com/repo.git", Some("dir"));
    assert_eq!(p.dir_name, "dir");
    let p = plan_clone("repo.git.git", None);
    assert_eq!(p.dir_name, "repo");
    let p = plan_clone("plain", None);
    assert_eq!(p.dir_name, "plain");
}

#[test]
fn worktree_root_is_parent_of_metadata_dir() {
    assert_eq!(worktree_root_of("/repo/.bare\n"), Some("/repo".to_string()));
    assert_eq!(worktree_root_of(".bare\n"), Some("".to_string()));
    assert_eq!(worktree_root_of("/x"), Some("/".to_string()));
    assert_eq!(worktree_root_of("/\n"), None);
    assert_eq!(worktree_root_of(""), None);
}

#[test]
fn worktree_paths_join_with_one_separator() {
    assert_eq!(worktree_path_for("/repo", "feat"), "/repo/feat");
    assert_eq!(worktree_path_for("/repo/", "feat"), "/repo/feat");
    assert_eq!(worktree_path_for("", "feat"), "feat");
}

#[test]
fn base_ref_defaults_to_origin() {
    assert_eq!(base_ref_of("feature-x", None), "origin/feature-x");
    assert_eq!(base_ref_of("feature-x", Some("release/1.0")), "release/1.0");
}

#[test]
fn error_exit_codes_and_messages() {
    assert_eq!(WtError::NotInRepository.exit_code(), 1);
    assert_eq!(WtError::QueryError.exit_code(), 1);
    assert_eq!(WtError::ResolveNotFound.exit_code(), 1);
    assert_eq!(WtError::PathExists.exit_code(), 1);
    assert_eq!(WtError::CommandFailed.exit_code(), 1);
    assert_eq!(WtError::Cancelled.exit_code(), 0);
    assert_eq!(WtError::NotInRepository.message(), "Not in a git repository");
    assert_eq!(WtError::CommandFailed.message(), "Command failed");
    assert_eq!(WtError::Cancelled.message(), "Cancelled.");
    assert_eq!(WtError::ResolveNotFound.message(), "Worktree not found");
    assert_eq!(WtError::QueryError.message(), "Failed to query worktrees");
    assert_eq!(WtError::PathExists.message(), "Directory already exists");
}
