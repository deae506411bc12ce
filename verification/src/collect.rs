use vstd::prelude::*;
use crate::details::{
    commit_action_spec, commit_details_spec, commit_entry, commit_url_spec, counts_note,
    counts_note_spec, diff_entries_match, entry_is, issue_action_spec, issue_comment_action_spec,
    issue_details_spec, issue_entry, issue_note_entry, merge_request_action_spec,
    merge_request_comment_action_spec, merge_request_details_spec, merge_request_entry,
    merge_request_note_entry, note_details_spec,
};
use crate::range::DateRange;
use crate::records::{Commit, CommitDiff, Issue, MergeRequest, Note, Project};
use crate::report::{file_all, file_entry, fileable, ActivityEntry, ActivityReport};

verus! {

/// The positions `i < n` with `pred(i)`, in increasing order.
pub open spec fn positions(n: nat, pred: spec_fn(int) -> bool) -> Seq<int>
    decreases n,
{
    if n == 0 {
        seq![]
    } else {
        let rest = positions((n - 1) as nat, pred);
        if pred(n - 1) {
            rest.push(n - 1)
        } else {
            rest
        }
    }
}

proof fn lemma_positions_bound(n: nat, pred: spec_fn(int) -> bool)
    ensures
        forall|k: int| 0 <= k < positions(n, pred).len() ==> 0 <= #[trigger] positions(n, pred)[k] < n,
        positions(n, pred).len() <= n,
    decreases n,
{
    if n > 0 {
        lemma_positions_bound((n - 1) as nat, pred);
    }
}

/// Positions of the commits authored within `range`.
pub open spec fn commits_in_range(commits: Seq<Commit>, range: DateRange) -> Seq<int> {
    positions(commits.len(), |i: int| range.spec_contains(commits[i].authored_date.date))
}

/// Positions of the issues opened within `range`.
pub open spec fn issues_in_range(issues: Seq<Issue>, range: DateRange) -> Seq<int> {
    positions(issues.len(), |i: int| range.spec_contains(issues[i].created_at.date))
}

/// Positions of the merge requests opened within `range`.
pub open spec fn merge_requests_in_range(mrs: Seq<MergeRequest>, range: DateRange) -> Seq<int> {
    positions(mrs.len(), |i: int| range.spec_contains(mrs[i].created_at.date))
}

/// Positions of the notes that count for `username` within `range`.
pub open spec fn notes_counted(notes: Seq<Note>, username: Seq<char>, range: DateRange) -> Seq<int> {
    positions(notes.len(), |i: int| counts_note_spec(notes[i], username, range))
}

/// `entries` are the report entries of the issues at `picked` in `issues`.
pub open spec fn issue_entries(
    entries: Seq<ActivityEntry>,
    project: Project,
    issues: Seq<Issue>,
    picked: Seq<int>,
) -> bool {
    &&& entries.len() == picked.len()
    &&& forall|k: int|
        0 <= k < picked.len() ==> entry_is(
            #[trigger] entries[k],
            issues[picked[k]].created_at,
            project,
            issue_action_spec(issues[picked[k]].state@, issues[picked[k]].iid),
            issue_details_spec(issues[picked[k]]),
        ) && entries[k].diffs.len() == 0
}

/// `entries` are the report entries of the merge requests at `picked` in `mrs`.
pub open spec fn merge_request_entries(
    entries: Seq<ActivityEntry>,
    project: Project,
    mrs: Seq<MergeRequest>,
    picked: Seq<int>,
) -> bool {
    &&& entries.len() == picked.len()
    &&& forall|k: int|
        0 <= k < picked.len() ==> entry_is(
            #[trigger] entries[k],
            mrs[picked[k]].created_at,
            project,
            merge_request_action_spec(mrs[picked[k]].state@, mrs[picked[k]].iid),
            merge_request_details_spec(mrs[picked[k]]),
        ) && entries[k].diffs.len() == 0
}

/// What a project scan waits for.
#[derive(Clone, Copy, Debug, PartialEq, Eq, Structural)]
pub enum ProjectPhase {
    /// The user's commits in the project.
    Commits,
    /// The diff of the next commit in range.
    Diffs,
    /// The issues the user opened.
    Issues,
    /// The merge requests the user opened.
    MergeRequests,
    /// Nothing: the scan is over.
    Done,
}

/// What a project scan asks the caller to fetch next.
#[derive(Debug, PartialEq, Eq)]
pub enum ProjectRequest {
    Commits,
    CommitDiff(String),
    Issues,
    MergeRequests,
    Finished,
}

/// The scan of one project for the user's commits, issues and merge requests
/// within a date range. Fetch failures are passed in as `None` and skipped.
pub struct ProjectScan {
    pub range: DateRange,
    pub phase: ProjectPhase,
    pub commits: Vec<Commit>,
    pub selected: Vec<usize>,
    pub next: usize,
    pub commit_count: usize,
    pub issue_count: usize,
    pub merge_request_count: usize,
    pub found_activity: bool,
}

impl ProjectScan {
    /// The selected commits are those in range, and the next one to get a diff exists.
    pub open spec fn wf(self) -> bool {
        &&& self.selected@.map_values(|p: usize| p as int) == commits_in_range(
            self.commits@,
            self.range,
        )
        &&& forall|k: int| 0 <= k < self.selected.len() ==> (#[trigger] self.selected@[k])
            < self.commits.len()
        &&& self.phase == ProjectPhase::Diffs ==> self.next < self.selected.len()
    }

    /// The commit whose diff is asked for next.
    pub open spec fn pending_commit(self) -> Commit {
        self.commits@[self.selected@[self.next as int] as int]
    }

    /// A scan of one project over `range`, starting with its commits.
    pub fn new(range: DateRange) -> (s: ProjectScan)
        ensures
            s.wf(),
            s.range == range,
            s.phase == ProjectPhase::Commits,
            s.commit_count == 0 && s.issue_count == 0 && s.merge_request_count == 0,
            !s.found_activity,
    {
        let s = ProjectScan {
            range,
            phase: ProjectPhase::Commits,
            commits: Vec::new(),
            selected: Vec::new(),
            next: 0,
            commit_count: 0,
            issue_count: 0,
            merge_request_count: 0,
            found_activity: false,
        };
        assert(s.selected@.map_values(|p: usize| p as int) =~= commits_in_range(s.commits@, range));
        s
    }

    /// What to fetch next.
    pub fn request(&self) -> (r: ProjectRequest)
        requires
            self.wf(),
        ensures
            self.phase == ProjectPhase::Commits ==> r == ProjectRequest::Commits,
            self.phase == ProjectPhase::Diffs ==> (r matches ProjectRequest::CommitDiff(sha) && sha@
                == self.pending_commit().id@),
            self.phase == ProjectPhase::Issues ==> r == ProjectRequest::Issues,
            self.phase == ProjectPhase::MergeRequests ==> r == ProjectRequest::MergeRequests,
            self.phase == ProjectPhase::Done ==> r == ProjectRequest::Finished,
    {
        match self.phase {
            ProjectPhase::Commits => ProjectRequest::Commits,
            ProjectPhase::Diffs => ProjectRequest::CommitDiff(
                self.commits[self.selected[self.next]].id.clone(),
            ),
            ProjectPhase::Issues => ProjectRequest::Issues,
            ProjectPhase::MergeRequests => ProjectRequest::MergeRequests,
            ProjectPhase::Done => ProjectRequest::Finished,
        }
    }

    /// The user's commits arrived (`None`: the fetch failed). Those in range are
    /// counted and get their diffs fetched; with none, the scan moves on to issues.
    pub fn on_commits(&mut self, fetched: Option<Vec<Commit>>)
        requires
            old(self).wf(),
            old(self).phase == ProjectPhase::Commits,
            fetched matches Some(l) ==> old(self).commit_count + l.len() <= usize::MAX,
        ensures
            final(self).wf(),
            final(self).range == old(self).range,
            final(self).commits@ == (match fetched {
                Some(l) => l@,
                None => Seq::<Commit>::empty(),
            }),
            final(self).commit_count == old(self).commit_count + final(self).selected.len(),
            final(self).selected.len() > 0 ==> final(self).phase == ProjectPhase::Diffs
                && final(self).next == 0 && final(self).found_activity,
            final(self).selected.len() == 0 ==> final(self).phase == ProjectPhase::Issues
                && final(self).found_activity == old(self).found_activity,
            final(self).issue_count == old(self).issue_count,
            final(self).merge_request_count == old(self).merge_request_count,
    {
        let commits = match fetched {
            Some(l) => l,
            None => Vec::new(),
        };
        let ghost range = self.range;
        let ghost pred = |i: int| range.spec_contains(commits@[i].authored_date.date);
        let mut selected: Vec<usize> = Vec::new();
        let mut i: usize = 0;
        while i < commits.len()
            invariant
                i <= commits.len(),
                range == self.range,
                pred == (|i: int| range.spec_contains(commits@[i].authored_date.date)),
                selected@.map_values(|p: usize| p as int) == positions(i as nat, pred),
                forall|k: int| 0 <= k < selected.len() ==> (#[trigger] selected@[k]) < i,
                selected.len() <= i,
            decreases commits.len() - i,
        {
            if self.range.contains(commits[i].authored_date.date) {
                selected.push(i);
            }
            assert(selected@.map_values(|p: usize| p as int) =~= positions((i + 1) as nat, pred));
            i += 1;
        }
        self.commit_count = self.commit_count + selected.len();
        if selected.len() > 0 {
            self.found_activity = true;
            self.phase = ProjectPhase::Diffs;
        } else {
            self.phase = ProjectPhase::Issues;
        }
        self.commits = commits;
        self.selected = selected;
        self.next = 0;
    }

    /// The diff of the pending commit arrived (`None`: the fetch failed, and the
    /// commit is shown without changes). Its entry is filed; after the last
    /// commit the scan moves on to issues.
    pub fn on_commit_diff(
        &mut self,
        report: &mut ActivityReport,
        project: &Project,
        fetched: Option<Vec<CommitDiff>>,
    )
        requires
            old(self).wf(),
            old(self).phase == ProjectPhase::Diffs,
            old(report).wf(),
            fileable(old(self).pending_commit().authored_date),
        ensures
            final(self).wf(),
            final(report).wf(),
            final(self).next == old(self).next + 1,
            final(self).phase == (if final(self).next == old(self).selected.len() {
                ProjectPhase::Issues
            } else {
                ProjectPhase::Diffs
            }),
            final(self).range == old(self).range,
            final(self).commits == old(self).commits,
            final(self).selected == old(self).selected,
            final(self).commit_count == old(self).commit_count,
            final(self).issue_count == old(self).issue_count,
            final(self).merge_request_count == old(self).merge_request_count,
            final(self).found_activity == old(self).found_activity,
            exists|e: ActivityEntry|
                {
                    &&& entry_is(
                        e,
                        old(self).pending_commit().authored_date,
                        *project,
                        commit_action_spec(old(self).pending_commit().short_id@),
                        commit_details_spec(
                            old(self).pending_commit().title@,
                            old(self).pending_commit().message@,
                            commit_url_spec(old(self).pending_commit(), *project),
                        ),
                    )
                    &&& diff_entries_match(
                        e.diffs@,
                        match fetched {
                            Some(d) => d@,
                            None => Seq::<CommitDiff>::empty(),
                        },
                    )
                    &&& final(report).week_map() == file_entry(old(report).week_map(), e)
                },
    {
        let diffs = match fetched {
            Some(d) => d,
            None => Vec::new(),
        };
        let entry = commit_entry(project, &self.commits[self.selected[self.next]], diffs);
        let ghost e = entry;
        report.add_entry(entry);
        self.next = self.next + 1;
        if self.next == self.selected.len() {
            self.phase = ProjectPhase::Issues;
        }
        assert(entry_is(
            e,
            old(self).pending_commit().authored_date,
            *project,
            commit_action_spec(old(self).pending_commit().short_id@),
            commit_details_spec(
                old(self).pending_commit().title@,
                old(self).pending_commit().message@,
                commit_url_spec(old(self).pending_commit(), *project),
            ),
        ));
    }

    /// The issues the user opened arrived (`None`: the fetch failed). Those
    /// opened within range are counted and filed; the scan moves on to merge requests.
    pub fn on_issues(
        &mut self,
        report: &mut ActivityReport,
        project: &Project,
        fetched: Option<Vec<Issue>>,
    )
        requires
            old(self).wf(),
            old(self).phase == ProjectPhase::Issues,
            old(report).wf(),
            fetched matches Some(l) ==> old(self).issue_count + l.len() <= usize::MAX,
            fetched matches Some(l) ==> forall|i: int|
                0 <= i < l.len() && old(self).range.spec_contains(#[trigger] l@[i].created_at.date)
                    ==> fileable(l@[i].created_at),
        ensures
            final(self).wf(),
            final(report).wf(),
            final(self).phase == ProjectPhase::MergeRequests,
            final(self).range == old(self).range,
            final(self).commits == old(self).commits,
            final(self).selected == old(self).selected,
            final(self).commit_count == old(self).commit_count,
            final(self).merge_request_count == old(self).merge_request_count,
            ({
                let issues = match fetched {
                    Some(l) => l@,
                    None => Seq::<Issue>::empty(),
                };
                let picked = issues_in_range(issues, old(self).range);
                &&& final(self).issue_count == old(self).issue_count + picked.len()
                &&& final(self).found_activity == (old(self).found_activity || picked.len() > 0)
                &&& exists|es: Seq<ActivityEntry>|
                    issue_entries(es, *project, issues, picked) && final(report).week_map()
                        == file_all(old(report).week_map(), es)
            }),
    {
        let issues = match fetched {
            Some(l) => l,
            None => Vec::new(),
        };
        let ghost range = self.range;
        let ghost pred = |i: int| range.spec_contains(issues@[i].created_at.date);
        let ghost start_map = report.week_map();
        let ghost mut es: Seq<ActivityEntry> = seq![];
        let mut count: usize = 0;
        let mut i: usize = 0;
        proof {
            assert(issue_entries(es, *project, issues@, positions(0, pred)));
        }
        while i < issues.len()
            invariant
                i <= issues.len(),
                range == self.range,
                pred == (|i: int| range.spec_contains(issues@[i].created_at.date)),
                report.wf(),
                count == positions(i as nat, pred).len(),
                count <= i,
                issue_entries(es, *project, issues@, positions(i as nat, pred)),
                report.week_map() == file_all(start_map, es),
                forall|j: int|
                    0 <= j < issues.len() && range.spec_contains(#[trigger] issues@[j].created_at.date)
                        ==> fileable(issues@[j].created_at),
            decreases issues.len() - i,
        {
            proof {
                lemma_positions_bound(i as nat, pred);
            }
            if self.range.contains(issues[i].created_at.date) {
                let entry = issue_entry(project, &issues[i]);
                let ghost prev = es;
                proof {
                    es = es.push(entry);
                    assert(es.drop_last() =~= prev);
                }
                report.add_entry(entry);
                count = count + 1;
                proof {
                    let ps = positions((i + 1) as nat, pred);
                    assert(ps == positions(i as nat, pred).push(i as int));
                    assert forall|k: int| 0 <= k < ps.len() implies entry_is(
                        #[trigger] es[k],
                        issues@[ps[k]].created_at,
                        *project,
                        issue_action_spec(issues@[ps[k]].state@, issues@[ps[k]].iid),
                        issue_details_spec(issues@[ps[k]]),
                    ) && es[k].diffs.len() == 0 by {
                        if k < ps.len() - 1 {
                            assert(ps[k] == positions(i as nat, pred)[k]);
                        }
                    }
                }
            }
            i += 1;
        }
        self.issue_count = self.issue_count + count;
        if count > 0 {
            self.found_activity = true;
        }
        self.phase = ProjectPhase::MergeRequests;
        proof {
            assert(issues_in_range(issues@, range) == positions(issues@.len(), pred));
        }
    }
    /// The merge requests the user opened arrived (`None`: the fetch failed).
    /// Those opened within range are counted and filed; the scan is then done.
    pub fn on_merge_requests(
        &mut self,
        report: &mut ActivityReport,
        project: &Project,
        fetched: Option<Vec<MergeRequest>>,
    )
        requires
            old(self).wf(),
            old(self).phase == ProjectPhase::MergeRequests,
            old(report).wf(),
            fetched matches Some(l) ==> old(self).merge_request_count + l.len() <= usize::MAX,
            fetched matches Some(l) ==> forall|i: int|
                0 <= i < l.len() && old(self).range.spec_contains(#[trigger] l@[i].created_at.date)
                    ==> fileable(l@[i].created_at),
        ensures
            final(self).wf(),
            final(report).wf(),
            final(self).phase == ProjectPhase::Done,
            final(self).range == old(self).range,
            final(self).commits == old(self).commits,
            final(self).selected == old(self).selected,
            final(self).commit_count == old(self).commit_count,
            final(self).issue_count == old(self).issue_count,
            ({
                let mrs = match fetched {
                    Some(l) => l@,
                    None => Seq::<MergeRequest>::empty(),
                };
                let picked = merge_requests_in_range(mrs, old(self).range);
                &&& final(self).merge_request_count == old(self).merge_request_count + picked.len()
                &&& final(self).found_activity == (old(self).found_activity || picked.len() > 0)
                &&& exists|es: Seq<ActivityEntry>|
                    merge_request_entries(es, *project, mrs, picked) && final(report).week_map()
                        == file_all(old(report).week_map(), es)
            }),
    {
        let mrs = match fetched {
            Some(l) => l,
            None => Vec::new(),
        };
        let ghost range = self.range;
        let ghost pred = |i: int| range.spec_contains(mrs@[i].created_at.date);
        let ghost start_map = report.week_map();
        let ghost mut es: Seq<ActivityEntry> = seq![];
        let mut count: usize = 0;
        let mut i: usize = 0;
        proof {
            assert(merge_request_entries(es, *project, mrs@, positions(0, pred)));
        }
        while i < mrs.len()
            invariant
                i <= mrs.len(),
                range == self.range,
                pred == (|i: int| range.spec_contains(mrs@[i].created_at.date)),
                report.wf(),
                count == positions(i as nat, pred).len(),
                count <= i,
                merge_request_entries(es, *project, mrs@, positions(i as nat, pred)),
                report.week_map() == file_all(start_map, es),
                forall|j: int|
                    0 <= j < mrs.len() && range.spec_contains(#[trigger] mrs@[j].created_at.date)
                        ==> fileable(mrs@[j].created_at),
            decreases mrs.len() - i,
        {
            proof {
                lemma_positions_bound(i as nat, pred);
            }
            if self.range.contains(mrs[i].created_at.date) {
                let entry = merge_request_entry(project, &mrs[i]);
                let ghost prev = es;
                proof {
                    es = es.push(entry);
                    assert(es.drop_last() =~= prev);
                }
                report.add_entry(entry);
                count = count + 1;
                proof {
                    let ps = positions((i + 1) as nat, pred);
                    assert(ps == positions(i as nat, pred).push(i as int));
                    assert forall|k: int| 0 <= k < ps.len() implies entry_is(
                        #[trigger] es[k],
                        mrs@[ps[k]].created_at,
                        *project,
                        merge_request_action_spec(mrs@[ps[k]].state@, mrs@[ps[k]].iid),
                        merge_request_details_spec(mrs@[ps[k]]),
                    ) && es[k].diffs.len() == 0 by {
                        if k < ps.len() - 1 {
                            assert(ps[k] == positions(i as nat, pred)[k]);
                        }
                    }
                }
            }
            i += 1;
        }
        self.merge_request_count = self.merge_request_count + count;
        if count > 0 {
            self.found_activity = true;
        }
        self.phase = ProjectPhase::Done;
        proof {
            assert(merge_requests_in_range(mrs@, range) == positions(mrs@.len(), pred));
        }
    }
    /// The counts of commits, issues and merge requests in range, and whether
    /// any were found.
    pub fn tally(&self) -> (t: (usize, usize, usize, bool))
        ensures
            t == (self.commit_count, self.issue_count, self.merge_request_count, self.found_activity),
    {
        (self.commit_count, self.issue_count, self.merge_request_count, self.found_activity)
    }

}


/// `entries` are the report entries of the comments at `picked` in `notes`,
/// each shown with `action` and linking to the item titled `title` at `url`.
pub open spec fn note_entries(
    entries: Seq<ActivityEntry>,
    project: Project,
    notes: Seq<Note>,
    picked: Seq<int>,
    action: Seq<char>,
    title: Seq<char>,
    url: Seq<char>,
) -> bool {
    &&& entries.len() == picked.len()
    &&& forall|k: int|
        0 <= k < picked.len() ==> entry_is(
            #[trigger] entries[k],
            notes[picked[k]].created_at,
            project,
            action,
            note_details_spec(title, notes[picked[k]].body@, url),
        ) && entries[k].diffs.len() == 0
}

/// What a comment scan waits for.
#[derive(Clone, Copy, Debug, PartialEq, Eq, Structural)]
pub enum CommentPhase {
    /// The issues of the current project updated within the range.
    Issues,
    /// The notes of the next of those issues.
    IssueNotes,
    /// The merge requests of the current project updated within the range.
    MergeRequests,
    /// The notes of the next of those merge requests.
    MergeRequestNotes,
    /// Nothing: every project was scanned.
    Done,
}

/// What a comment scan asks the caller to fetch next: for the project at the
/// given position, its updated issues or merge requests, or the notes of one of
/// them by its `iid`.
#[derive(Debug, PartialEq, Eq)]
pub enum CommentRequest {
    Issues(usize),
    IssueNotes(usize, i64),
    MergeRequests(usize),
    MergeRequestNotes(usize, i64),
    Finished,
}

/// The scan of every project for the user's comments within a date range.
/// Fetch failures are passed in as `None` and skipped.
pub struct CommentScan {
    pub range: DateRange,
    pub username: String,
    pub project_count: usize,
    pub project: usize,
    pub phase: CommentPhase,
    pub issues: Vec<Issue>,
    pub merge_requests: Vec<MergeRequest>,
    pub next: usize,
    pub total: usize,
}

impl CommentScan {
    /// The current project exists while the scan runs, and so does the item
    /// whose notes come next.
    pub open spec fn wf(self) -> bool {
        &&& self.phase != CommentPhase::Done ==> self.project < self.project_count
        &&& self.phase == CommentPhase::IssueNotes ==> self.next < self.issues.len()
        &&& self.phase == CommentPhase::MergeRequestNotes ==> self.next < self.merge_requests.len()
    }

    /// Where the scan goes after the last merge request of the current project:
    /// the next project's issues, or done after the last project.
    pub open spec fn moved_on(old_scan: CommentScan, new_scan: CommentScan) -> bool {
        &&& new_scan.project == old_scan.project + 1
        &&& new_scan.phase == (if new_scan.project == old_scan.project_count {
            CommentPhase::Done
        } else {
            CommentPhase::Issues
        })
    }

    /// A scan of `project_count` projects over `range` for comments by `username`.
    pub fn new(range: DateRange, username: &str, project_count: usize) -> (s: CommentScan)
        ensures
            s.wf(),
            s.range == range,
            s.username@ == username@,
            s.project_count == project_count,
            s.project == 0,
            s.total == 0,
            s.phase == (if project_count == 0 {
                CommentPhase::Done
            } else {
                CommentPhase::Issues
            }),
    {
        CommentScan {
            range,
            username: String::from_str(username),
            project_count,
            project: 0,
            phase: if project_count == 0 {
                CommentPhase::Done
            } else {
                CommentPhase::Issues
            },
            issues: Vec::new(),
            merge_requests: Vec::new(),
            next: 0,
            total: 0,
        }
    }

    /// What to fetch next.
    pub fn request(&self) -> (r: CommentRequest)
        requires
            self.wf(),
        ensures
            self.phase == CommentPhase::Issues ==> r == CommentRequest::Issues(self.project),
            self.phase == CommentPhase::IssueNotes ==> r == CommentRequest::IssueNotes(
                self.project,
                self.issues@[self.next as int].iid,
            ),
            self.phase == CommentPhase::MergeRequests ==> r == CommentRequest::MergeRequests(
                self.project,
            ),
            self.phase == CommentPhase::MergeRequestNotes ==> r
                == CommentRequest::MergeRequestNotes(
                self.project,
                self.merge_requests@[self.next as int].iid,
            ),
            self.phase == CommentPhase::Done ==> r == CommentRequest::Finished,
    {
        match self.phase {
            CommentPhase::Issues => CommentRequest::Issues(self.project),
            CommentPhase::IssueNotes => CommentRequest::IssueNotes(
                self.project,
                self.issues[self.next].iid,
            ),
            CommentPhase::MergeRequests => CommentRequest::MergeRequests(self.project),
            CommentPhase::MergeRequestNotes => CommentRequest::MergeRequestNotes(
                self.project,
                self.merge_requests[self.next].iid,
            ),
            CommentPhase::Done => CommentRequest::Finished,
        }
    }

    /// The updated issues of the current project arrived (`None`: the fetch
    /// failed). Their notes are fetched one issue at a time; with no issues the
    /// scan moves on to merge requests.
    pub fn on_issues(&mut self, fetched: Option<Vec<Issue>>)
        requires
            old(self).wf(),
            old(self).phase == CommentPhase::Issues,
        ensures
            final(self).wf(),
            final(self).issues@ == (match fetched {
                Some(l) => l@,
                None => Seq::<Issue>::empty(),
            }),
            final(self).phase == (if final(self).issues.len() > 0 {
                CommentPhase::IssueNotes
            } else {
                CommentPhase::MergeRequests
            }),
            final(self).next == 0,
            final(self).range == old(self).range,
            final(self).username == old(self).username,
            final(self).project_count == old(self).project_count,
            final(self).project == old(self).project,
            final(self).total == old(self).total,
    {
        let issues = match fetched {
            Some(l) => l,
            None => Vec::new(),
        };
        if issues.len() > 0 {
            self.phase = CommentPhase::IssueNotes;
        } else {
            self.phase = CommentPhase::MergeRequests;
        }
        self.issues = issues;
        self.next = 0;
    }

    /// The updated merge requests of the current project arrived (`None`: the
    /// fetch failed). Their notes are fetched one at a time; with none the scan
    /// moves on to the next project.
    pub fn on_merge_requests(&mut self, fetched: Option<Vec<MergeRequest>>)
        requires
            old(self).wf(),
            old(self).phase == CommentPhase::MergeRequests,
        ensures
            final(self).wf(),
            final(self).merge_requests@ == (match fetched {
                Some(l) => l@,
                None => Seq::<MergeRequest>::empty(),
            }),
            final(self).merge_requests.len() > 0 ==> final(self).phase
                == CommentPhase::MergeRequestNotes && final(self).project == old(self).project,
            final(self).merge_requests.len() == 0 ==> Self::moved_on(*old(self), *final(self)),
            final(self).next == 0,
            final(self).range == old(self).range,
            final(self).username == old(self).username,
            final(self).project_count == old(self).project_count,
            final(self).total == old(self).total,
    {
        let mrs = match fetched {
            Some(l) => l,
            None => Vec::new(),
        };
        if mrs.len() > 0 {
            self.phase = CommentPhase::MergeRequestNotes;
        } else {
            self.project = self.project + 1;
            if self.project == self.project_count {
                self.phase = CommentPhase::Done;
            } else {
                self.phase = CommentPhase::Issues;
            }
        }
        self.merge_requests = mrs;
        self.next = 0;
    }

    /// The notes of the pending issue arrived (`None`: the fetch failed). The
    /// user's notes within range are counted and filed; after the last issue
    /// the scan moves on to merge requests.
    pub fn on_issue_notes(
        &mut self,
        report: &mut ActivityReport,
        project: &Project,
        fetched: Option<Vec<Note>>,
    )
        requires
            old(self).wf(),
            old(self).phase == CommentPhase::IssueNotes,
            old(report).wf(),
            fetched matches Some(l) ==> old(self).total + l.len() <= usize::MAX,
            fetched matches Some(l) ==> forall|i: int|
                0 <= i < l.len() && counts_note_spec(
                    #[trigger] l@[i],
                    old(self).username@,
                    old(self).range,
                ) ==> fileable(l@[i].created_at),
        ensures
            final(self).wf(),
            final(report).wf(),
            final(self).next == old(self).next + 1,
            final(self).phase == (if final(self).next == old(self).issues.len() {
                CommentPhase::MergeRequests
            } else {
                CommentPhase::IssueNotes
            }),
            final(self).issues == old(self).issues,
            final(self).range == old(self).range,
            final(self).username == old(self).username,
            final(self).project_count == old(self).project_count,
            final(self).project == old(self).project,
            ({
                let notes = match fetched {
                    Some(l) => l@,
                    None => Seq::<Note>::empty(),
                };
                let issue = old(self).issues@[old(self).next as int];
                let picked = notes_counted(notes, old(self).username@, old(self).range);
                &&& final(self).total == old(self).total + picked.len()
                &&& exists|es: Seq<ActivityEntry>|
                    note_entries(
                        es,
                        *project,
                        notes,
                        picked,
                        issue_comment_action_spec(issue.iid),
                        issue.title@,
                        issue.web_url@,
                    ) && final(report).week_map() == file_all(old(report).week_map(), es)
            }),
    {
        let notes = match fetched {
            Some(l) => l,
            None => Vec::new(),
        };
        let ghost range = self.range;
        let ghost user = self.username@;
        let ghost issue = self.issues@[self.next as int];
        let ghost pred = |i: int| counts_note_spec(notes@[i], user, range);
        let ghost start_map = report.week_map();
        let ghost mut es: Seq<ActivityEntry> = seq![];
        let mut count: usize = 0;
        let mut i: usize = 0;
        while i < notes.len()
            invariant
                i <= notes.len(),
                range == self.range,
                user == self.username@,
                self.next < self.issues.len(),
                issue == self.issues@[self.next as int],
                pred == (|i: int| counts_note_spec(notes@[i], user, range)),
                report.wf(),
                count == positions(i as nat, pred).len(),
                count <= i,
                note_entries(
                    es,
                    *project,
                    notes@,
                    positions(i as nat, pred),
                    issue_comment_action_spec(issue.iid),
                    issue.title@,
                    issue.web_url@,
                ),
                report.week_map() == file_all(start_map, es),
                forall|j: int|
                    0 <= j < notes.len() && counts_note_spec(#[trigger] notes@[j], user, range)
                        ==> fileable(notes@[j].created_at),
            decreases notes.len() - i,
        {
            proof {
                lemma_positions_bound(i as nat, pred);
            }
            if counts_note(&notes[i], self.username.as_str(), &self.range) {
                let entry = issue_note_entry(project, &self.issues[self.next], &notes[i]);
                let ghost prev = es;
                proof {
                    es = es.push(entry);
                    assert(es.drop_last() =~= prev);
                }
                report.add_entry(entry);
                count = count + 1;
                proof {
                    let ps = positions((i + 1) as nat, pred);
                    assert(ps == positions(i as nat, pred).push(i as int));
                    assert forall|k: int| 0 <= k < ps.len() implies entry_is(
                        #[trigger] es[k],
                        notes@[ps[k]].created_at,
                        *project,
                        issue_comment_action_spec(issue.iid),
                        note_details_spec(issue.title@, notes@[ps[k]].body@, issue.web_url@),
                    ) && es[k].diffs.len() == 0 by {
                        if k < ps.len() - 1 {
                            assert(ps[k] == positions(i as nat, pred)[k]);
                        }
                    }
                }
            }
            i += 1;
        }
        self.total = self.total + count;
        self.next = self.next + 1;
        if self.next == self.issues.len() {
            self.phase = CommentPhase::MergeRequests;
        }
        proof {
            assert(notes_counted(notes@, user, range) == positions(notes@.len(), pred));
        }
    }

    /// The notes of the pending merge request arrived (`None`: the fetch failed).
    /// The user's notes within range are counted and filed; after the last merge
    /// request the scan moves on to the next project.
    pub fn on_merge_request_notes(
        &mut self,
        report: &mut ActivityReport,
        project: &Project,
        fetched: Option<Vec<Note>>,
    )
        requires
            old(self).wf(),
            old(self).phase == CommentPhase::MergeRequestNotes,
            old(report).wf(),
            fetched matches Some(l) ==> old(self).total + l.len() <= usize::MAX,
            fetched matches Some(l) ==> forall|i: int|
                0 <= i < l.len() && counts_note_spec(
                    #[trigger] l@[i],
                    old(self).username@,
                    old(self).range,
                ) ==> fileable(l@[i].created_at),
        ensures
            final(self).wf(),
            final(report).wf(),
            final(self).next == old(self).next + 1,
            final(self).next == old(self).merge_requests.len() ==> Self::moved_on(
                *old(self),
                *final(self),
            ),
            final(self).next < old(self).merge_requests.len() ==> final(self).phase
                == CommentPhase::MergeRequestNotes && final(self).project == old(self).project,
            final(self).merge_requests == old(self).merge_requests,
            final(self).range == old(self).range,
            final(self).username == old(self).username,
            final(self).project_count == old(self).project_count,
            ({
                let notes = match fetched {
                    Some(l) => l@,
                    None => Seq::<Note>::empty(),
                };
                let mr = old(self).merge_requests@[old(self).next as int];
                let picked = notes_counted(notes, old(self).username@, old(self).range);
                &&& final(self).total == old(self).total + picked.len()
                &&& exists|es: Seq<ActivityEntry>|
                    note_entries(
                        es,
                        *project,
                        notes,
                        picked,
                        merge_request_comment_action_spec(mr.iid),
                        mr.title@,
                        mr.web_url@,
                    ) && final(report).week_map() == file_all(old(report).week_map(), es)
            }),
    {
        let notes = match fetched {
            Some(l) => l,
            None => Vec::new(),
        };
        let ghost range = self.range;
        let ghost user = self.username@;
        let ghost mr = self.merge_requests@[self.next as int];
        let ghost pred = |i: int| counts_note_spec(notes@[i], user, range);
        let ghost start_map = report.week_map();
        let ghost mut es: Seq<ActivityEntry> = seq![];
        let mut count: usize = 0;
        let mut i: usize = 0;
        while i < notes.len()
            invariant
                i <= notes.len(),
                range == self.range,
                user == self.username@,
                self.next < self.merge_requests.len(),
                mr == self.merge_requests@[self.next as int],
                pred == (|i: int| counts_note_spec(notes@[i], user, range)),
                report.wf(),
                count == positions(i as nat, pred).len(),
                count <= i,
                note_entries(
                    es,
                    *project,
                    notes@,
                    positions(i as nat, pred),
                    merge_request_comment_action_spec(mr.iid),
                    mr.title@,
                    mr.web_url@,
                ),
                report.week_map() == file_all(start_map, es),
                forall|j: int|
                    0 <= j < notes.len() && counts_note_spec(#[trigger] notes@[j], user, range)
                        ==> fileable(notes@[j].created_at),
            decreases notes.len() - i,
        {
            proof {
                lemma_positions_bound(i as nat, pred);
            }
            if counts_note(&notes[i], self.username.as_str(), &self.range) {
                let entry = merge_request_note_entry(project, &self.merge_requests[self.next], &notes[i]);
                let ghost prev = es;
                proof {
                    es = es.push(entry);
                    assert(es.drop_last() =~= prev);
                }
                report.add_entry(entry);
                count = count + 1;
                proof {
                    let ps = positions((i + 1) as nat, pred);
                    assert(ps == positions(i as nat, pred).push(i as int));
                    assert forall|k: int| 0 <= k < ps.len() implies entry_is(
                        #[trigger] es[k],
                        notes@[ps[k]].created_at,
                        *project,
                        merge_request_comment_action_spec(mr.iid),
                        note_details_spec(mr.title@, notes@[ps[k]].body@, mr.web_url@),
                    ) && es[k].diffs.len() == 0 by {
                        if k < ps.len() - 1 {
                            assert(ps[k] == positions(i as nat, pred)[k]);
                        }
                    }
                }
            }
            i += 1;
        }
        self.total = self.total + count;
        self.next = self.next + 1;
        if self.next == self.merge_requests.len() {
            self.project = self.project + 1;
            if self.project == self.project_count {
                self.phase = CommentPhase::Done;
            } else {
                self.phase = CommentPhase::Issues;
            }
        }
        proof {
            assert(notes_counted(notes@, user, range) == positions(notes@.len(), pred));
        }
    }

    /// The number of comments counted so far.
    pub fn total(&self) -> (t: usize)
        ensures
            t == self.total,
    {
        self.total
    }
}


/// The positions picked by `pred` are exactly those below `n` where it holds,
/// each once, in increasing order.
pub proof fn lemma_positions_exact(n: nat, pred: spec_fn(int) -> bool)
    ensures
        forall|k: int|
            0 <= k < positions(n, pred).len() ==> 0 <= #[trigger] positions(n, pred)[k] < n
                && pred(positions(n, pred)[k]),
        forall|k1: int, k2: int|
            0 <= k1 < k2 < positions(n, pred).len() ==> #[trigger] positions(n, pred)[k1]
                < #[trigger] positions(n, pred)[k2],
        forall|i: int| 0 <= i < n && pred(i) ==> #[trigger] positions(n, pred).contains(i),
    decreases n,
{
    if n > 0 {
        let rest = positions((n - 1) as nat, pred);
        lemma_positions_exact((n - 1) as nat, pred);
        assert forall|i: int| 0 <= i < n && pred(i) implies #[trigger] positions(n, pred).contains(
            i,
        ) by {
            if i < n - 1 {
                assert(rest.contains(i));
                let k = choose|k: int| 0 <= k < rest.len() && rest[k] == i;
                if pred(n - 1) {
                    assert(positions(n, pred) == rest.push(n - 1));
                    assert(positions(n, pred)[k] == i);
                } else {
                    assert(positions(n, pred) == rest);
                }
            } else {
                assert(positions(n, pred) == rest.push(n - 1));
                assert(positions(n, pred)[rest.len() as int] == i);
            }
        }
    }
}

/// A commit is picked exactly when its authored day is neither before the
/// range's first day nor after its last, and picked commits keep their order.
pub proof fn lemma_commits_in_range(commits: Seq<Commit>, range: DateRange)
    ensures
        forall|k: int|
            0 <= k < commits_in_range(commits, range).len() ==> {
                let i = #[trigger] commits_in_range(commits, range)[k];
                &&& 0 <= i < commits.len()
                &&& range.start.spec_le(commits[i].authored_date.date)
                &&& commits[i].authored_date.date.spec_le(range.end)
            },
        forall|k1: int, k2: int|
            0 <= k1 < k2 < commits_in_range(commits, range).len() ==> #[trigger] commits_in_range(
                commits,
                range,
            )[k1] < #[trigger] commits_in_range(commits, range)[k2],
        forall|i: int|
            0 <= i < commits.len() && range.start.spec_le(commits[i].authored_date.date)
                && commits[i].authored_date.date.spec_le(range.end) ==> #[trigger] commits_in_range(
                commits,
                range,
            ).contains(i),
{
    lemma_positions_exact(
        commits.len(),
        |i: int| range.spec_contains(commits[i].authored_date.date),
    );
}

/// An issue is picked exactly when the day it was opened is neither before the
/// range's first day nor after its last, and picked issues keep their order.
pub proof fn lemma_issues_in_range(issues: Seq<Issue>, range: DateRange)
    ensures
        forall|k: int|
            0 <= k < issues_in_range(issues, range).len() ==> {
                let i = #[trigger] issues_in_range(issues, range)[k];
                &&& 0 <= i < issues.len()
                &&& range.start.spec_le(issues[i].created_at.date)
                &&& issues[i].created_at.date.spec_le(range.end)
            },
        forall|k1: int, k2: int|
            0 <= k1 < k2 < issues_in_range(issues, range).len() ==> #[trigger] issues_in_range(
                issues,
                range,
            )[k1] < #[trigger] issues_in_range(issues, range)[k2],
        forall|i: int|
            0 <= i < issues.len() && range.start.spec_le(issues[i].created_at.date)
                && issues[i].created_at.date.spec_le(range.end) ==> #[trigger] issues_in_range(
                issues,
                range,
            ).contains(i),
{
    lemma_positions_exact(issues.len(), |i: int| range.spec_contains(issues[i].created_at.date));
}

/// A merge request is picked exactly when the day it was opened is neither
/// before the range's first day nor after its last, and picked merge requests
/// keep their order.
pub proof fn lemma_merge_requests_in_range(mrs: Seq<MergeRequest>, range: DateRange)
    ensures
        forall|k: int|
            0 <= k < merge_requests_in_range(mrs, range).len() ==> {
                let i = #[trigger] merge_requests_in_range(mrs, range)[k];
                &&& 0 <= i < mrs.len()
                &&& range.start.spec_le(mrs[i].created_at.date)
                &&& mrs[i].created_at.date.spec_le(range.end)
            },
        forall|k1: int, k2: int|
            0 <= k1 < k2 < merge_requests_in_range(mrs, range).len()
                ==> #[trigger] merge_requests_in_range(mrs, range)[k1]
                < #[trigger] merge_requests_in_range(mrs, range)[k2],
        forall|i: int|
            0 <= i < mrs.len() && range.start.spec_le(mrs[i].created_at.date)
                && mrs[i].created_at.date.spec_le(range.end)
                ==> #[trigger] merge_requests_in_range(mrs, range).contains(i),
{
    lemma_positions_exact(mrs.len(), |i: int| range.spec_contains(mrs[i].created_at.date));
}

/// A comment is counted exactly when it is no system note, `username` wrote it,
/// and the day it was made is neither before the range's first day nor after
/// its last; counted comments keep their order.
pub proof fn lemma_notes_counted(notes: Seq<Note>, username: Seq<char>, range: DateRange)
    ensures
        forall|k: int|
            0 <= k < notes_counted(notes, username, range).len() ==> {
                let i = #[trigger] notes_counted(notes, username, range)[k];
                &&& 0 <= i < notes.len()
                &&& !notes[i].system
                &&& notes[i].author.username@ == username
                &&& range.start.spec_le(notes[i].created_at.date)
                &&& notes[i].created_at.date.spec_le(range.end)
            },
        forall|k1: int, k2: int|
            0 <= k1 < k2 < notes_counted(notes, username, range).len()
                ==> #[trigger] notes_counted(notes, username, range)[k1]
                < #[trigger] notes_counted(notes, username, range)[k2],
        forall|i: int|
            0 <= i < notes.len() && !notes[i].system && notes[i].author.username@ == username
                && range.start.spec_le(notes[i].created_at.date)
                && notes[i].created_at.date.spec_le(range.end)
                ==> #[trigger] notes_counted(notes, username, range).contains(i),
{
    lemma_positions_exact(notes.len(), |i: int| counts_note_spec(notes[i], username, range));
}

/// In a scan, the commits picked for diffs and filing are exactly those
/// authored on a day of the range (both ends included), in the order fetched.
pub proof fn lemma_selected_commits(scan: ProjectScan)
    requires
        scan.wf(),
    ensures
        forall|k: int|
            0 <= k < scan.selected.len() ==> {
                let d = scan.commits@[#[trigger] scan.selected@[k] as int].authored_date.date;
                scan.range.start.spec_le(d) && d.spec_le(scan.range.end)
            },
        forall|k1: int, k2: int|
            0 <= k1 < k2 < scan.selected.len() ==> #[trigger] scan.selected@[k1]
                < #[trigger] scan.selected@[k2],
        forall|i: int|
            0 <= i < scan.commits.len() && scan.range.start.spec_le(
                #[trigger] scan.commits@[i].authored_date.date,
            ) && scan.commits@[i].authored_date.date.spec_le(scan.range.end) ==> exists|k: int|
                0 <= k < scan.selected.len() && scan.selected@[k] == i,
{
    let picked = commits_in_range(scan.commits@, scan.range);
    lemma_commits_in_range(scan.commits@, scan.range);
    assert forall|k: int| 0 <= k < scan.selected.len() implies #[trigger] scan.selected@[k] as int
        == picked[k] by {
        assert(scan.selected@.map_values(|p: usize| p as int)[k] == picked[k]);
    }
    assert forall|k1: int, k2: int| 0 <= k1 < k2 < scan.selected.len() implies #[trigger] scan.selected@[k1]
        < #[trigger] scan.selected@[k2] by {
        assert(picked[k1] < picked[k2]);
    }
    assert forall|i: int|
        0 <= i < scan.commits.len() && scan.range.start.spec_le(
            #[trigger] scan.commits@[i].authored_date.date,
        ) && scan.commits@[i].authored_date.date.spec_le(scan.range.end) implies exists|k: int|
        0 <= k < scan.selected.len() && scan.selected@[k] == i by {
        assert(picked.contains(i));
        let k = choose|k: int| 0 <= k < picked.len() && picked[k] == i;
        assert(scan.selected@[k] as int == picked[k]);
    }
}

} // verus!
