use log_book_git::calendar::{Date, Timestamp};
use log_book_git::details::{
    build_commit_details, build_issue_details, build_mr_details, change_type, commit_entry,
    commit_url, counts_note, issue_entry, issue_note_entry, merge_request_entry,
    merge_request_note_entry,
};
use log_book_git::range::DateRange;
use log_book_git::records::{Commit, CommitDiff, Issue, MergeRequest, Note, NoteAuthor, Project};
use log_book_git::report::{ActivityEntry, ActivityReport, DiffEntry};

fn at(year: i32, month: u32, day: u32, seconds: u32) -> Timestamp {
    Timestamp { date: Date { year, month, day }, seconds, nanos: 0 }
}

fn project() -> Project {
    Project {
        id: 1,
        name: "proj".to_string(),
        path_with_namespace: "g/proj".to_string(),
        web_url: "https://gitlab.com/g/proj".to_string(),
    }
}

fn commit(message: &str, web_url: Option<&str>) -> Commit {
    Commit {
        id: "abcdef123456".to_string(),
        short_id: "abcdef1".to_string(),
        title: "Fix auth".to_string(),
        message: message.to_string(),
        authored_date: at(2025, 1, 20, 3600),
        web_url: web_url.map(|s| s.to_string()),
    }
}

fn issue(state: &str, description: Option<&str>) -> Issue {
    Issue {
        iid: 12,
        title: "Broken".to_string(),
        description: description.map(|s| s.to_string()),
        state: state.to_string(),
        created_at: at(2025, 1, 21, 0),
        web_url: "https://gitlab.com/g/proj/-/issues/12".to_string(),
    }
}

fn mr(state: &str, description: Option<&str>) -> MergeRequest {
    MergeRequest {
        iid: 5,
        title: "Add thing".to_string(),
        description: description.map(|s| s.to_string()),
        state: state.to_string(),
        created_at: at(2025, 1, 22, 0),
        merged_at: None,
        web_url: "https://gitlab.com/g/proj/-/merge_requests/5".to_string(),
        source_branch: "feature".to_string(),
        target_branch: "main".to_string(),
    }
}

fn simple_entry(date: Timestamp, action: &str) -> ActivityEntry {
    ActivityEntry {
        date,
        project_name: "p".to_string(),
        project_url: "u".to_string(),
        action: action.to_string(),
        details: "d".to_string(),
        diffs: Vec::new(),
    }
}

#[test]
fn commit_details_with_and_without_body() {
    let c = commit("Fix auth\n\n  Body line\nsecond\n\n", None);
    assert_eq!(build_commit_details(&c, "U"), "**Fix auth**\n\nBody line\nsecond\n\n[View Commit](U)");
    let c = commit("Fix auth", None);
    assert_eq!(build_commit_details(&c, "U"), "**Fix auth**\n\n[View Commit](U)");
    let c = commit("Fix auth\n   \n", None);
    assert_eq!(build_commit_details(&c, "U"), "**Fix auth**\n\n[View Commit](U)");
    let c = commit("", None);
    assert_eq!(build_commit_details(&c, "U"), "**Fix auth**\n\n[View Commit](U)");
}

#[test]
fn issue_and_mr_details() {
    assert_eq!(
        build_issue_details(&issue("opened", None)),
        "**Broken**\n\n[View Issue](https://gitlab.com/g/proj/-/issues/12)"
    );
    assert_eq!(
        build_issue_details(&issue("opened", Some("  \n"))),
        "**Broken**\n\n[View Issue](https://gitlab.com/g/proj/-/issues/12)"
    );
    assert_eq!(
        build_issue_details(&issue("opened", Some(" It fails \n"))),
        "**Broken**\n\nIt fails\n\n[View Issue](https://gitlab.com/g/proj/-/issues/12)"
    );
    assert_eq!(
        build_mr_details(&mr("merged", None)),
        "**Add thing**\n\n`feature` -> `main`\n\n[View MR](https://gitlab.com/g/proj/-/merge_requests/5)"
    );
    assert_eq!(
        build_mr_details(&mr("merged", Some("Adds it"))),
        "**Add thing**\n\nAdds it\n\n`feature` -> `main`\n\n[View MR](https://gitlab.com/g/proj/-/merge_requests/5)"
    );
}

#[test]
fn change_types_in_order_of_precedence() {
    let diff = |n: bool, r: bool, d: bool| CommitDiff {
        new_path: "f".to_string(),
        diff: "".to_string(),
        new_file: n,
        renamed_file: r,
        deleted_file: d,
    };
    assert_eq!(change_type(&diff(true, true, true)), "added");
    assert_eq!(change_type(&diff(false, true, true)), "deleted");
    assert_eq!(change_type(&diff(false, true, false)), "renamed");
    assert_eq!(change_type(&diff(false, false, false)), "modified");
}

#[test]
fn commit_url_falls_back_to_project_page() {
    assert_eq!(commit_url(&commit("m", Some("https://x/c")), &project()), "https://x/c");
    assert_eq!(
        commit_url(&commit("m", None), &project()),
        "https://gitlab.com/g/proj/commit/abcdef123456"
    );
}

#[test]
fn entry_actions() {
    let p = project();
    let diffs = vec![CommitDiff {
        new_path: "src/a.rs".to_string(),
        diff: "+x".to_string(),
        new_file: false,
        renamed_file: false,
        deleted_file: true,
    }];
    let e = commit_entry(&p, &commit("Fix auth", None), diffs);
    assert_eq!(e.action, "\u{1F680} Commit `abcdef1`");
    assert_eq!(e.project_name, "proj");
    assert_eq!(e.project_url, "https://gitlab.com/g/proj");
    assert_eq!(e.diffs.len(), 1);
    assert_eq!(e.diffs[0].file_path, "src/a.rs");
    assert_eq!(e.diffs[0].change_type, "deleted");
    assert_eq!(e.diffs[0].diff_content, "+x");
    assert_eq!(issue_entry(&p, &issue("opened", None)).action, "\u{1F7E2} Issue #12");
    assert_eq!(issue_entry(&p, &issue("closed", None)).action, "\u{1F534} Issue #12");
    assert_eq!(issue_entry(&p, &issue("locked", None)).action, "\u{1F4CB} Issue #12");
    assert_eq!(merge_request_entry(&p, &mr("opened", None)).action, "\u{1F500} MR !5");
    assert_eq!(merge_request_entry(&p, &mr("merged", None)).action, "\u{2705} MR !5");
    assert_eq!(merge_request_entry(&p, &mr("closed", None)).action, "\u{274C} MR !5");
    assert_eq!(merge_request_entry(&p, &mr("draft", None)).action, "\u{1F4DD} MR !5");
    let note = Note {
        body: "nice".to_string(),
        author: NoteAuthor { username: "me".to_string() },
        created_at: at(2025, 1, 23, 0),
        system: false,
    };
    let e = issue_note_entry(&p, &issue("opened", None), &note);
    assert_eq!(e.action, "\u{1F4AC} Comment on Issue #12");
    assert_eq!(e.details, "**Broken**\n\nnice\n\n[Open Thread](https://gitlab.com/g/proj/-/issues/12)");
    let e = merge_request_note_entry(&p, &mr("opened", None), &note);
    assert_eq!(e.action, "\u{1F4AC} Comment on MR !5");
}

#[test]
fn which_notes_count() {
    let range = DateRange { start: Date { year: 2025, month: 1, day: 1 }, end: Date { year: 2025, month: 1, day: 31 } };
    let note = |user: &str, system: bool, day: u32| Note {
        body: "b".to_string(),
        author: NoteAuthor { username: user.to_string() },
        created_at: at(2025, 1, day, 0),
        system,
    };
    assert!(counts_note(&note("me", false, 10), "me", &range));
    assert!(!counts_note(&note("me", true, 10), "me", &range));
    assert!(!counts_note(&note("you", false, 10), "me", &range));
    let late = Note { created_at: at(2025, 2, 1, 0), ..note("me", false, 1) };
    assert!(!counts_note(&late, "me", &range));
}

#[test]
fn report_markdown_layout() {
    let mut report = ActivityReport::new();
    // Week of 2025-01-13 (Monday).
    report.add_entry(simple_entry(at(2025, 1, 14, 100), "early"));
    // Week of 2025-01-20: two on Wednesday (same time, kept in order), one on Monday.
    report.add_entry(simple_entry(at(2025, 1, 20, 50), "monday"));
    report.add_entry(simple_entry(at(2025, 1, 22, 10), "wed-a"));
    report.add_entry(simple_entry(at(2025, 1, 22, 10), "wed-b"));
    let mut with_diff = simple_entry(at(2025, 1, 22, 20), "wed-late");
    with_diff.diffs.push(DiffEntry {
        file_path: "src/auth.rs".to_string(),
        change_type: "modified".to_string(),
        diff_content: "- old code\n+ new code".to_string(),
    });
    report.add_entry(with_diff);
    assert_eq!(report.weeks.len(), 2);
    assert_eq!(report.weeks[0].key, "2025-01-20");
    assert_eq!(report.weeks[1].key, "2025-01-13");
    let md = report.render_markdown("2026-03-10 09:00:00 UTC");
    let expected: String = [
        "# GitLab Activity Report\n\n",
        "Generated on: 2026-03-10 09:00:00 UTC\n\n",
        "## Week: January 20, 2025 to January 26, 2025\n\n",
        "### Wednesday, January 22, 2025\n\n",
        "#### wed-late - [p](u)\n\nd\n\n",
        "<details>\n<summary>Code Changes</summary>\n\n",
        "**src/auth.rs** (modified)\n\n```diff\n- old code\n+ new code\n```\n\n",
        "</details>\n\n---\n\n",
        "#### wed-a - [p](u)\n\nd\n\n---\n\n",
        "#### wed-b - [p](u)\n\nd\n\n---\n\n",
        "### Monday, January 20, 2025\n\n",
        "#### monday - [p](u)\n\nd\n\n---\n\n",
        "## Week: January 13, 2025 to January 19, 2025\n\n",
        "### Tuesday, January 14, 2025\n\n",
        "#### early - [p](u)\n\nd\n\n---\n\n",
    ]
    .concat();
    assert_eq!(md, expected);
}

#[test]
fn weeks_come_newest_first_whatever_the_filing_order() {
    let mut report = ActivityReport::new();
    report.add_entry(simple_entry(at(2024, 12, 31, 0), "a"));
    report.add_entry(simple_entry(at(2025, 2, 3, 0), "b"));
    report.add_entry(simple_entry(at(2025, 1, 8, 0), "c"));
    report.add_entry(simple_entry(at(2025, 1, 9, 0), "d"));
    let keys: Vec<&str> = report.weeks.iter().map(|w| w.key.as_str()).collect();
    assert_eq!(keys, vec!["2025-02-03", "2025-01-06", "2024-12-30"]);
    assert_eq!(report.weeks[1].entries.len(), 2);
}

#[test]
fn empty_report() {
    let report = ActivityReport::new();
    assert_eq!(
        report.render_markdown("X"),
        "# GitLab Activity Report\n\nGenerated on: X\n\n"
    );
    let md = report.to_markdown();
    assert!(md.starts_with("# GitLab Activity Report\n\nGenerated on: "));
    assert!(md.ends_with(" UTC\n\n"));
    assert_eq!(md.len(), "# GitLab Activity Report\n\nGenerated on: 2026-03-10 09:00:00 UTC\n\n".len());
}

#[test]
fn long_diffs_are_cut_in_the_report() {
    let mut report = ActivityReport::new();
    let mut e = simple_entry(at(2025, 1, 20, 0), "c");
    let content: Vec<String> = (0..105).map(|i| format!("+{i}")).collect();
    e.diffs.push(DiffEntry {
        file_path: "f".to_string(),
        change_type: "added".to_string(),
        diff_content: content.join("\n"),
    });
    report.add_entry(e);
    let md = report.render_markdown("X");
    let shown = content[..100].join("\n");
    assert!(md.contains(&format!("```diff\n{shown}\n... (5 more lines truncated)\n```\n\n")));
}

#[test]
fn same_weeks_render_the_same_whatever_the_filing_order() {
    let mut first = ActivityReport::new();
    first.add_entry(simple_entry(at(2025, 1, 8, 0), "c"));
    first.add_entry(simple_entry(at(2024, 12, 31, 0), "a"));
    first.add_entry(simple_entry(at(2025, 1, 9, 0), "d"));
    let mut second = ActivityReport::new();
    second.add_entry(simple_entry(at(2024, 12, 31, 0), "a"));
    second.add_entry(simple_entry(at(2025, 1, 8, 0), "c"));
    second.add_entry(simple_entry(at(2025, 1, 9, 0), "d"));
    assert_eq!(first.render_markdown("X"), second.render_markdown("X"));
}

#[test]
fn each_added_entry_counts_once_and_no_week_is_empty() {
    let mut report = ActivityReport::new();
    let dates = [at(2025, 1, 8, 0), at(2025, 1, 9, 0), at(2024, 12, 31, 0), at(2025, 1, 8, 5)];
    for (n, date) in dates.iter().enumerate() {
        report.add_entry(simple_entry(*date, "x"));
        let total: usize = report.weeks.iter().map(|w| w.entries.len()).sum();
        assert_eq!(total, n + 1);
        assert!(report.weeks.iter().all(|w| !w.entries.is_empty()));
    }
}
