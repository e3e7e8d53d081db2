use git_wt::inventory::parse_worktree_list;
use git_wt::text::{has_prefix, has_suffix, split_lines, str_eq, trim};

#[test]
fn parse_typical_listing() {
    let out = "worktree /repo/.bare\nbare\n\nworktree /repo/main\nHEAD abcd\nbranch refs/heads/main\n\nworktree /repo/det\nHEAD beef\ndetached\n";
    let recs = parse_worktree_list(out);
    assert_eq!(recs.len(), 1);
    assert_eq!(recs[0].branch, "main");
    assert_eq!(recs[0].path, "/repo/main");
}

#[test]
fn parse_keeps_listing_order() {
    let out = "worktree /r/b\nbranch refs/heads/b\nworktree /r/a\nbranch refs/heads/a\n";
    let recs = parse_worktree_list(out);
    assert_eq!(recs.len(), 2);
    assert_eq!(recs[0].branch, "b");
    assert_eq!(recs[1].branch, "a");
}

#[test]
fn parse_crlf_lines() {
    let out = "worktree /a\r\nbranch refs/heads/x\r\n";
    let recs = parse_worktree_list(out);
    assert_eq!(recs.len(), 1);
    assert_eq!(recs[0].branch, "x");
    assert_eq!(recs[0].path, "/a");
}

#[test]
fn parse_branch_without_ref_prefix() {
    let out = "worktree /a\nbranch topic\n";
    let recs = parse_worktree_list(out);
    assert_eq!(recs.len(), 1);
    assert_eq!(recs[0].branch, "topic");
}

#[test]
fn parse_reopened_worktree_line_wins() {
    let out = "worktree /a\nworktree /b\nbranch refs/heads/x\n";
    let recs = parse_worktree_list(out);
    assert_eq!(recs.len(), 1);
    assert_eq!(recs[0].path, "/b");
}

#[test]
fn parse_branch_line_without_open_record() {
    let out = "branch refs/heads/x\n";
    let recs = parse_worktree_list(out);
    assert_eq!(recs.len(), 0);
}

#[test]
fn parse_empty_output() {
    let recs = parse_worktree_list("");
    assert_eq!(recs.len(), 0);
}

#[test]
fn split_lines_variants() {
    let lines = split_lines("a\nb\r\nc");
    assert_eq!(lines, vec!["a".to_string(), "b".to_string(), "c".to_string()]);
    let lines = split_lines("a\n");
    assert_eq!(lines, vec!["a".to_string()]);
    let lines = split_lines("\n");
    assert_eq!(lines, vec!["".to_string()]);
    let lines = split_lines("");
    assert_eq!(lines.len(), 0);
}

#[test]
fn text_predicates() {
    assert!(str_eq("main", "main"));
    assert!(!str_eq("main", "maine"));
    assert!(has_prefix("worktree /a", "worktree "));
    assert!(!has_prefix("work", "worktree "));
    assert!(has_suffix("repo.git", ".git"));
    assert!(!has_suffix("git", ".git"));
    assert_eq!(trim("  x \n"), "x");
    assert_eq!(trim("\r\n"), "");
}
