use log_book_git::calendar::{Date, Timestamp};
use log_book_git::collect::{
    CommentPhase, CommentRequest, CommentScan, ProjectPhase, ProjectRequest, ProjectScan,
};
use log_book_git::range::DateRange;
use log_book_git::records::{Commit, CommitDiff, Issue, MergeRequest, Note, NoteAuthor, Project};
use log_book_git::report::ActivityReport;

fn at(year: i32, month: u32, day: u32) -> Timestamp {
    Timestamp { date: Date { year, month, day }, seconds: 0, nanos: 0 }
}

fn january() -> DateRange {
    DateRange { start: Date { year: 2025, month: 1, day: 1 }, end: Date { year: 2025, month: 1, day: 31 } }
}

fn project() -> Project {
    Project { id: 3, name: "p".to_string(), path_with_namespace: "g/p".to_string(), web_url: "w".to_string() }
}

fn commit(id: &str, date: Timestamp) -> Commit {
    Commit {
        id: id.to_string(),
        short_id: id.to_string(),
        title: "t".to_string(),
        message: "t".to_string(),
        authored_date: date,
        web_url: None,
    }
}

fn issue(iid: i64, date: Timestamp) -> Issue {
    Issue {
        iid,
        title: "i".to_string(),
        description: None,
        state: "opened".to_string(),
        created_at: date,
        web_url: "wi".to_string(),
    }
}

fn mr(iid: i64, date: Timestamp) -> MergeRequest {
    MergeRequest {
        iid,
        title: "m".to_string(),
        description: None,
        state: "merged".to_string(),
        created_at: date,
        merged_at: None,
        web_url: "wm".to_string(),
        source_branch: "a".to_string(),
        target_branch: "b".to_string(),
    }
}

fn note(user: &str, date: Timestamp, system: bool) -> Note {
    Note { body: "n".to_string(), author: NoteAuthor { username: user.to_string() }, created_at: date, system }
}

fn entry_count(report: &ActivityReport) -> usize {
    report.weeks.iter().map(|w| w.entries.len()).sum()
}

#[test]
fn project_scan_walks_commits_issues_and_merge_requests() {
    let p = project();
    let mut report = ActivityReport::new();
    let mut scan = ProjectScan::new(january());
    assert_eq!(scan.request(), ProjectRequest::Commits);
    scan.on_commits(Some(vec![
        commit("c1", at(2025, 1, 5)),
        commit("c2", at(2025, 2, 5)),
        commit("c3", at(2025, 1, 31)),
    ]));
    assert_eq!(scan.request(), ProjectRequest::CommitDiff("c1".to_string()));
    scan.on_commit_diff(&mut report, &p, None);
    assert_eq!(scan.request(), ProjectRequest::CommitDiff("c3".to_string()));
    scan.on_commit_diff(
        &mut report,
        &p,
        Some(vec![CommitDiff {
            new_path: "f".to_string(),
            diff: "+".to_string(),
            new_file: true,
            renamed_file: false,
            deleted_file: false,
        }]),
    );
    assert_eq!(scan.request(), ProjectRequest::Issues);
    scan.on_issues(&mut report, &p, Some(vec![issue(1, at(2024, 12, 31)), issue(2, at(2025, 1, 2))]));
    assert_eq!(scan.request(), ProjectRequest::MergeRequests);
    scan.on_merge_requests(&mut report, &p, None);
    assert_eq!(scan.request(), ProjectRequest::Finished);
    assert_eq!(scan.phase, ProjectPhase::Done);
    assert_eq!(scan.tally(), (2, 1, 0, true));
    assert_eq!(entry_count(&report), 3);
}

#[test]
fn project_scan_without_activity() {
    let p = project();
    let mut report = ActivityReport::new();
    let mut scan = ProjectScan::new(january());
    scan.on_commits(None);
    assert_eq!(scan.request(), ProjectRequest::Issues);
    scan.on_issues(&mut report, &p, Some(vec![issue(1, at(2025, 3, 1))]));
    scan.on_merge_requests(&mut report, &p, Some(vec![mr(4, at(2024, 1, 1))]));
    assert_eq!(scan.tally(), (0, 0, 0, false));
    assert_eq!(entry_count(&report), 0);
}

#[test]
fn project_scan_merge_requests_only() {
    let p = project();
    let mut report = ActivityReport::new();
    let mut scan = ProjectScan::new(january());
    scan.on_commits(Some(vec![commit("c", at(2025, 5, 5))]));
    assert_eq!(scan.request(), ProjectRequest::Issues);
    scan.on_issues(&mut report, &p, None);
    scan.on_merge_requests(&mut report, &p, Some(vec![mr(4, at(2025, 1, 9)), mr(6, at(2025, 1, 10))]));
    assert_eq!(scan.tally(), (0, 0, 2, true));
    assert_eq!(entry_count(&report), 2);
}

#[test]
fn comment_scan_counts_the_users_notes() {
    let p = project();
    let mut report = ActivityReport::new();
    let mut scan = CommentScan::new(january(), "me", 2);
    assert_eq!(scan.request(), CommentRequest::Issues(0));
    scan.on_issues(Some(vec![issue(7, at(2025, 1, 1)), issue(8, at(2025, 1, 1))]));
    assert_eq!(scan.request(), CommentRequest::IssueNotes(0, 7));
    scan.on_issue_notes(
        &mut report,
        &p,
        Some(vec![
            note("me", at(2025, 1, 3), false),
            note("me", at(2025, 1, 3), true),
            note("you", at(2025, 1, 3), false),
            note("me", at(2025, 2, 3), false),
        ]),
    );
    assert_eq!(scan.request(), CommentRequest::IssueNotes(0, 8));
    scan.on_issue_notes(&mut report, &p, None);
    assert_eq!(scan.request(), CommentRequest::MergeRequests(0));
    scan.on_merge_requests(Some(vec![mr(2, at(2025, 1, 1))]));
    assert_eq!(scan.request(), CommentRequest::MergeRequestNotes(0, 2));
    scan.on_merge_request_notes(&mut report, &p, Some(vec![note("me", at(2025, 1, 4), false)]));
    assert_eq!(scan.request(), CommentRequest::Issues(1));
    scan.on_issues(None);
    assert_eq!(scan.request(), CommentRequest::MergeRequests(1));
    scan.on_merge_requests(Some(vec![]));
    assert_eq!(scan.request(), CommentRequest::Finished);
    assert_eq!(scan.phase, CommentPhase::Done);
    assert_eq!(scan.total(), 2);
    assert_eq!(entry_count(&report), 2);
}

#[test]
fn comment_scan_without_projects() {
    let scan = CommentScan::new(january(), "me", 0);
    assert_eq!(scan.request(), CommentRequest::Finished);
    assert_eq!(scan.total(), 0);
}
