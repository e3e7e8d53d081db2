//! The worktree inventory: records parsed from the version-control system's
//! machine-readable worktree listing.
//!
//! A `worktree <path>` line opens a record and a following
//! `branch refs/heads/<name>` line closes it; every other line is ignored.
//! A worktree with no `branch` line (a detached head, or the bare store)
//! produces no record, so it is never a switch/remove target by branch name.

use crate::text::{has_prefix, is_prefixed, lines_of, split_lines, suffix_from};
use vstd::prelude::*;

verus! {

/// One worktree as reported by the inventory: its branch and its directory.
pub struct WorktreeRecord {
    pub branch: String,
    pub path: String,
}

/// Mathematical image of a record: both fields as character sequences.
pub struct RecordV {
    pub branch: Seq<char>,
    pub path: Seq<char>,
}

impl View for WorktreeRecord {
    type V = RecordV;

    open spec fn view(&self) -> RecordV {
        RecordV { branch: self.branch@, path: self.path@ }
    }
}

impl DeepView for WorktreeRecord {
    type V = RecordV;

    open spec fn deep_view(&self) -> RecordV {
        self@
    }
}

/// A line that opens a record: `worktree <path>`.
pub open spec fn is_worktree_line(l: Seq<char>) -> bool {
    is_prefixed(l, "worktree "@)
}

/// The path carried by a `worktree ` line.
pub open spec fn worktree_line_path(l: Seq<char>) -> Seq<char> {
    l.skip("worktree "@.len() as int)
}

/// A line that closes a record: `branch <ref>`.
pub open spec fn is_branch_line(l: Seq<char>) -> bool {
    is_prefixed(l, "branch "@)
}

/// The branch named by a `branch ` line, with a `refs/heads/` prefix
/// stripped when present.
pub open spec fn branch_line_name(l: Seq<char>) -> Seq<char> {
    let r = l.skip("branch "@.len() as int);
    if is_prefixed(r, "refs/heads/"@) {
        r.skip("refs/heads/"@.len() as int)
    } else {
        r
    }
}

/// The records encoded by `lines`, where `pending` is the path of a
/// `worktree ` line already seen but not yet closed by a `branch ` line.
pub open spec fn parse_lines(lines: Seq<Seq<char>>, pending: Option<Seq<char>>) -> Seq<RecordV>
    decreases lines.len(),
{
    if lines.len() == 0 {
        Seq::empty()
    } else {
        let l = lines[0];
        let rest = lines.skip(1);
        if is_worktree_line(l) {
            parse_lines(rest, Some(worktree_line_path(l)))
        } else if is_branch_line(l) {
            match pending {
                Some(p) => seq![RecordV { branch: branch_line_name(l), path: p }] + parse_lines(
                    rest,
                    None,
                ),
                None => parse_lines(rest, None),
            }
        } else {
            parse_lines(rest, pending)
        }
    }
}

/// The worktree inventory encoded in the raw listing output `out`, in the
/// listing's own order.
pub open spec fn inventory_of(out: Seq<char>) -> Seq<RecordV> {
    parse_lines(lines_of(out), None)
}

/// The spec-level image of an optional pending path.
spec fn pending_view(p: Option<String>) -> Option<Seq<char>> {
    match p {
        Some(s) => Some(s@),
        None => None,
    }
}

/// Parse the machine-readable worktree listing into branch/path records.
pub fn parse_worktree_list(output: &str) -> (r: Vec<WorktreeRecord>)
    ensures
        r.deep_view() == inventory_of(output@),
{
    let lines = split_lines(output);
    let n = lines.len();
    let mut recs: Vec<WorktreeRecord> = Vec::new();
    let mut pending: Option<String> = None;
    let mut i: usize = 0;
    proof {
        assert(lines.deep_view().skip(0) =~= lines.deep_view());
        assert(recs.deep_view() + parse_lines(lines.deep_view(), None) =~= parse_lines(
            lines.deep_view(),
            None,
        ));
    }
    while i < n
        invariant
            n == lines@.len(),
            lines.deep_view() == lines_of(output@),
            i <= n,
            recs.deep_view() + parse_lines(lines.deep_view().skip(i as int), pending_view(pending))
                == inventory_of(output@),
        decreases n - i,
    {
        let line = &lines[i];
        proof {
            let dv = lines.deep_view();
            assert(dv[i as int] == lines@[i as int]@);
            assert(dv.skip(i as int)[0] == dv[i as int]);
            assert(dv.skip(i as int).skip(1) =~= dv.skip(i as int + 1));
        }
        if has_prefix(line.as_str(), "worktree ") {
            proof {
                reveal_strlit("worktree ");
            }
            let p = suffix_from(line.as_str(), 9);
            pending = Some(p);
        } else if has_prefix(line.as_str(), "branch ") {
            proof {
                reveal_strlit("branch ");
            }
            let rest = suffix_from(line.as_str(), 7);
            let name = if has_prefix(rest.as_str(), "refs/heads/") {
                proof {
                    reveal_strlit("refs/heads/");
                }
                let stripped = suffix_from(rest.as_str(), 11);
                proof {
                    assert(stripped@ == branch_line_name(line@));
                }
                stripped
            } else {
                rest
            };
            let prev_pending = pending;
            pending = None;
            match prev_pending {
                Some(p) => {
                    let ghost prev = recs.deep_view();
                    let ghost rv = RecordV { branch: name@, path: p@ };
                    recs.push(WorktreeRecord { branch: name, path: p });
                    proof {
                        assert(recs.deep_view() =~= prev.push(rv));
                        let rest_parse = parse_lines(
                            lines.deep_view().skip(i as int + 1),
                            None,
                        );
                        assert(prev.push(rv) + rest_parse =~= prev + (seq![rv] + rest_parse));
                    }
                },
                None => {},
            }
        }
        i += 1;
    }
    proof {
        assert(lines.deep_view().skip(n as int) =~= Seq::<Seq<char>>::empty());
        assert(recs.deep_view() + Seq::<RecordV>::empty() =~= recs.deep_view());
    }
    recs
}

} // verus!
