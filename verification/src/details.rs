use vstd::prelude::*;
use crate::calendar::Timestamp;
use crate::range::DateRange;
use crate::records::{Commit, CommitDiff, Issue, MergeRequest, Note, Project};
use crate::report::{ActivityEntry, DiffEntry};
use crate::range::lemma_range_contains;
use crate::text::{
    int_text, is_white_space, join_spec, lemma_lines_first_line, lemma_lines_without_newline,
    lemma_trim_piece, lines_of, lines_spec, push_int, push_joined, strip_cr, text_eq, texts, trim,
    trim_spec, truncate_text, truncate_text_spec,
};

verus! {

/// Comments are shown with at most this many characters.
pub const NOTE_PREVIEW_LIMIT: usize = 500;

/// The lines of `message` after the first.
pub open spec fn lines_after_first(message: Seq<char>) -> Seq<Seq<char>> {
    let lines = lines_spec(message);
    if lines.len() == 0 {
        lines
    } else {
        lines.drop_first()
    }
}

/// The body of a commit message: its lines after the first, joined and trimmed.
pub open spec fn commit_body(message: Seq<char>) -> Seq<char> {
    trim_spec(join_spec(lines_after_first(message), "\n"@))
}

/// A commit's details: its title in bold, its body when it has one, and a link to it.
pub open spec fn commit_details_spec(title: Seq<char>, message: Seq<char>, url: Seq<char>) -> Seq<
    char,
> {
    if commit_body(message).len() == 0 {
        "**"@ + title + "**\n\n[View Commit]("@ + url + ")"@
    } else {
        "**"@ + title + "**\n\n"@ + commit_body(message) + "\n\n[View Commit]("@ + url + ")"@
    }
}

/// The details of `commit`, linking to `commit_url`.
pub fn build_commit_details(commit: &Commit, commit_url: &str) -> (d: String)
    ensures
        d@ == commit_details_spec(commit.title@, commit.message@, commit_url@),
{
    let lines = lines_of(commit.message.as_str());
    let mut body = String::new();
    if lines.len() > 1 {
        push_joined(&mut body, &lines, 1, lines.len(), "\n");
        assert(texts(lines@, 1, lines.len() as int) =~= lines_after_first(commit.message@));
    } else {
        assert(lines_after_first(commit.message@) =~= Seq::<Seq<char>>::empty());
    }
    let body = trim(body.as_str());
    let mut d = String::from_str("**");
    d.append(commit.title.as_str());
    if body.as_str().unicode_len() == 0 {
        d.append("**\n\n[View Commit](");
    } else {
        d.append("**\n\n");
        d.append(body.as_str());
        d.append("\n\n[View Commit](");
    }
    d.append(commit_url);
    d.append(")");
    d
}

/// An optional description, trimmed (empty when there is none).
pub open spec fn description_text(description: Option<String>) -> Seq<char> {
    match description {
        Some(s) => trim_spec(s@),
        None => Seq::<char>::empty(),
    }
}

fn trimmed_description(description: &Option<String>) -> (t: String)
    ensures
        t@ == description_text(*description),
{
    match description {
        Some(s) => trim(s.as_str()),
        None => String::new(),
    }
}

/// An issue's details: its title in bold, its description when it has one, and a link to it.
pub open spec fn issue_details_spec(issue: Issue) -> Seq<char> {
    let description = description_text(issue.description);
    if description.len() == 0 {
        "**"@ + issue.title@ + "**\n\n[View Issue]("@ + issue.web_url@ + ")"@
    } else {
        "**"@ + issue.title@ + "**\n\n"@ + description + "\n\n[View Issue]("@ + issue.web_url@
            + ")"@
    }
}

/// The details of `issue`.
pub fn build_issue_details(issue: &Issue) -> (d: String)
    ensures
        d@ == issue_details_spec(*issue),
{
    let description = trimmed_description(&issue.description);
    let mut d = String::from_str("**");
    d.append(issue.title.as_str());
    if description.as_str().unicode_len() == 0 {
        d.append("**\n\n[View Issue](");
    } else {
        d.append("**\n\n");
        d.append(description.as_str());
        d.append("\n\n[View Issue](");
    }
    d.append(issue.web_url.as_str());
    d.append(")");
    d
}

/// A merge request's details: its title in bold, its description when it has
/// one, its source and target branch, and a link to it.
pub open spec fn merge_request_details_spec(mr: MergeRequest) -> Seq<char> {
    let description = description_text(mr.description);
    let branches = "`"@ + mr.source_branch@ + "` -> `"@ + mr.target_branch@ + "`\n\n[View MR]("@
        + mr.web_url@ + ")"@;
    if description.len() == 0 {
        "**"@ + mr.title@ + "**\n\n"@ + branches
    } else {
        "**"@ + mr.title@ + "**\n\n"@ + description + "\n\n"@ + branches
    }
}

/// The details of `mr`.
pub fn build_mr_details(mr: &MergeRequest) -> (d: String)
    ensures
        d@ == merge_request_details_spec(*mr),
{
    let description = trimmed_description(&mr.description);
    let mut d = String::from_str("**");
    d.append(mr.title.as_str());
    d.append("**\n\n");
    if description.as_str().unicode_len() != 0 {
        d.append(description.as_str());
        d.append("\n\n");
    }
    d.append("`");
    d.append(mr.source_branch.as_str());
    d.append("` -> `");
    d.append(mr.target_branch.as_str());
    d.append("`\n\n[View MR](");
    d.append(mr.web_url.as_str());
    d.append(")");
    assert(d@ =~= merge_request_details_spec(*mr));
    d
}

/// A comment's details: the title of what it is on in bold, the comment cut to
/// `NOTE_PREVIEW_LIMIT` characters, and a link to the thread.
pub open spec fn note_details_spec(title: Seq<char>, note_body: Seq<char>, url: Seq<char>) -> Seq<
    char,
> {
    "**"@ + title + "**\n\n"@ + truncate_text_spec(note_body, NOTE_PREVIEW_LIMIT as nat)
        + "\n\n[Open Thread]("@ + url + ")"@
}

/// The details of a comment with body `note_body` on the item titled `title` at `url`.
pub fn build_note_details(title: &str, note_body: &str, url: &str) -> (d: String)
    ensures
        d@ == note_details_spec(title@, note_body@, url@),
{
    let mut d = String::from_str("**");
    d.append(title);
    d.append("**\n\n");
    let preview = truncate_text(note_body, NOTE_PREVIEW_LIMIT);
    d.append(preview.as_str());
    d.append("\n\n[Open Thread](");
    d.append(url);
    d.append(")");
    d
}

/// How a file changed in a commit: added, deleted, renamed or modified, in that
/// order of precedence.
pub open spec fn change_type_spec(diff: CommitDiff) -> Seq<char> {
    if diff.new_file {
        "added"@
    } else if diff.deleted_file {
        "deleted"@
    } else if diff.renamed_file {
        "renamed"@
    } else {
        "modified"@
    }
}

/// How `diff`'s file changed.
pub fn change_type(diff: &CommitDiff) -> (t: String)
    ensures
        t@ == change_type_spec(*diff),
{
    if diff.new_file {
        String::from_str("added")
    } else if diff.deleted_file {
        String::from_str("deleted")
    } else if diff.renamed_file {
        String::from_str("renamed")
    } else {
        String::from_str("modified")
    }
}

/// Where a commit is shown: its own URL, or the project's `/commit/{id}` page.
pub open spec fn commit_url_spec(commit: Commit, project: Project) -> Seq<char> {
    match commit.web_url {
        Some(u) => u@,
        None => project.web_url@ + "/commit/"@ + commit.id@,
    }
}

/// The URL of `commit` in `project`.
pub fn commit_url(commit: &Commit, project: &Project) -> (u: String)
    ensures
        u@ == commit_url_spec(*commit, *project),
{
    match &commit.web_url {
        Some(u) => u.clone(),
        None => {
            let mut u = project.web_url.clone();
            u.append("/commit/");
            u.append(commit.id.as_str());
            u
        },
    }
}

/// The action line of a commit.
pub open spec fn commit_action_spec(short_id: Seq<char>) -> Seq<char> {
    "\u{1F680} Commit `"@ + short_id + "`"@
}

/// The icon of an issue in state `state`.
pub open spec fn issue_icon(state: Seq<char>) -> Seq<char> {
    if state == "opened"@ {
        "\u{1F7E2}"@
    } else if state == "closed"@ {
        "\u{1F534}"@
    } else {
        "\u{1F4CB}"@
    }
}

/// The icon of a merge request in state `state`.
pub open spec fn merge_request_icon(state: Seq<char>) -> Seq<char> {
    if state == "opened"@ {
        "\u{1F500}"@
    } else if state == "merged"@ {
        "\u{2705}"@
    } else if state == "closed"@ {
        "\u{274C}"@
    } else {
        "\u{1F4DD}"@
    }
}

/// The action line of an issue.
pub open spec fn issue_action_spec(state: Seq<char>, iid: i64) -> Seq<char> {
    issue_icon(state) + " Issue #"@ + int_text(iid as int)
}

/// The action line of a merge request.
pub open spec fn merge_request_action_spec(state: Seq<char>, iid: i64) -> Seq<char> {
    merge_request_icon(state) + " MR !"@ + int_text(iid as int)
}

/// The action line of a comment on an issue.
pub open spec fn issue_comment_action_spec(iid: i64) -> Seq<char> {
    "\u{1F4AC} Comment on Issue #"@ + int_text(iid as int)
}

/// The action line of a comment on a merge request.
pub open spec fn merge_request_comment_action_spec(iid: i64) -> Seq<char> {
    "\u{1F4AC} Comment on MR !"@ + int_text(iid as int)
}

fn issue_action(state: &str, iid: i64) -> (a: String)
    ensures
        a@ == issue_action_spec(state@, iid),
{
    let mut a = if text_eq(state, "opened") {
        String::from_str("\u{1F7E2}")
    } else if text_eq(state, "closed") {
        String::from_str("\u{1F534}")
    } else {
        String::from_str("\u{1F4CB}")
    };
    a.append(" Issue #");
    push_int(&mut a, iid);
    a
}

fn merge_request_action(state: &str, iid: i64) -> (a: String)
    ensures
        a@ == merge_request_action_spec(state@, iid),
{
    let mut a = if text_eq(state, "opened") {
        String::from_str("\u{1F500}")
    } else if text_eq(state, "merged") {
        String::from_str("\u{2705}")
    } else if text_eq(state, "closed") {
        String::from_str("\u{274C}")
    } else {
        String::from_str("\u{1F4DD}")
    };
    a.append(" MR !");
    push_int(&mut a, iid);
    a
}

/// `entry` records activity at `date` in `project`, with the given action and details.
pub open spec fn entry_is(
    entry: ActivityEntry,
    date: Timestamp,
    project: Project,
    action: Seq<char>,
    details: Seq<char>,
) -> bool {
    &&& entry.date == date
    &&& entry.project_name@ == project.name@
    &&& entry.project_url@ == project.web_url@
    &&& entry.action@ == action
    &&& entry.details@ == details
}

/// The changed files of a commit as shown in the report.
pub open spec fn diff_entries_match(entries: Seq<DiffEntry>, diffs: Seq<CommitDiff>) -> bool {
    &&& entries.len() == diffs.len()
    &&& forall|i: int|
        0 <= i < diffs.len() ==> {
            &&& (#[trigger] entries[i]).file_path@ == diffs[i].new_path@
            &&& entries[i].change_type@ == change_type_spec(diffs[i])
            &&& entries[i].diff_content@ == diffs[i].diff@
        }
}

/// The report entry of `commit` in `project`, with the changed files `diffs`.
pub fn commit_entry(project: &Project, commit: &Commit, diffs: Vec<CommitDiff>) -> (e:
    ActivityEntry)
    ensures
        entry_is(
            e,
            commit.authored_date,
            *project,
            commit_action_spec(commit.short_id@),
            commit_details_spec(commit.title@, commit.message@, commit_url_spec(*commit, *project)),
        ),
        diff_entries_match(e.diffs@, diffs@),
{
    let mut entries: Vec<DiffEntry> = Vec::new();
    let mut k: usize = 0;
    while k < diffs.len()
        invariant
            k <= diffs.len(),
            diff_entries_match(entries@, diffs@.take(k as int)),
        decreases diffs.len() - k,
    {
        let d = &diffs[k];
        let entry = DiffEntry {
            file_path: d.new_path.clone(),
            change_type: change_type(d),
            diff_content: d.diff.clone(),
        };
        entries.push(entry);
        k += 1;
        assert(diff_entries_match(entries@, diffs@.take(k as int)));
    }
    assert(diffs@.take(diffs.len() as int) =~= diffs@);
    let url = commit_url(commit, project);
    let mut action = String::from_str("\u{1F680} Commit `");
    action.append(commit.short_id.as_str());
    action.append("`");
    ActivityEntry {
        date: commit.authored_date,
        project_name: project.name.clone(),
        project_url: project.web_url.clone(),
        action,
        details: build_commit_details(commit, url.as_str()),
        diffs: entries,
    }
}

/// The report entry of `issue` in `project`.
pub fn issue_entry(project: &Project, issue: &Issue) -> (e: ActivityEntry)
    ensures
        entry_is(
            e,
            issue.created_at,
            *project,
            issue_action_spec(issue.state@, issue.iid),
            issue_details_spec(*issue),
        ),
        e.diffs.len() == 0,
{
    ActivityEntry {
        date: issue.created_at,
        project_name: project.name.clone(),
        project_url: project.web_url.clone(),
        action: issue_action(issue.state.as_str(), issue.iid),
        details: build_issue_details(issue),
        diffs: Vec::new(),
    }
}

/// The report entry of merge request `mr` in `project`.
pub fn merge_request_entry(project: &Project, mr: &MergeRequest) -> (e: ActivityEntry)
    ensures
        entry_is(
            e,
            mr.created_at,
            *project,
            merge_request_action_spec(mr.state@, mr.iid),
            merge_request_details_spec(*mr),
        ),
        e.diffs.len() == 0,
{
    ActivityEntry {
        date: mr.created_at,
        project_name: project.name.clone(),
        project_url: project.web_url.clone(),
        action: merge_request_action(mr.state.as_str(), mr.iid),
        details: build_mr_details(mr),
        diffs: Vec::new(),
    }
}

/// The report entry of comment `note` on `issue` in `project`.
pub fn issue_note_entry(project: &Project, issue: &Issue, note: &Note) -> (e: ActivityEntry)
    ensures
        entry_is(
            e,
            note.created_at,
            *project,
            issue_comment_action_spec(issue.iid),
            note_details_spec(issue.title@, note.body@, issue.web_url@),
        ),
        e.diffs.len() == 0,
{
    let mut action = String::from_str("\u{1F4AC} Comment on Issue #");
    push_int(&mut action, issue.iid);
    ActivityEntry {
        date: note.created_at,
        project_name: project.name.clone(),
        project_url: project.web_url.clone(),
        action,
        details: build_note_details(issue.title.as_str(), note.body.as_str(), issue.web_url.as_str()),
        diffs: Vec::new(),
    }
}

/// The report entry of comment `note` on merge request `mr` in `project`.
pub fn merge_request_note_entry(project: &Project, mr: &MergeRequest, note: &Note) -> (e:
    ActivityEntry)
    ensures
        entry_is(
            e,
            note.created_at,
            *project,
            merge_request_comment_action_spec(mr.iid),
            note_details_spec(mr.title@, note.body@, mr.web_url@),
        ),
        e.diffs.len() == 0,
{
    let mut action = String::from_str("\u{1F4AC} Comment on MR !");
    push_int(&mut action, mr.iid);
    ActivityEntry {
        date: note.created_at,
        project_name: project.name.clone(),
        project_url: project.web_url.clone(),
        action,
        details: build_note_details(mr.title.as_str(), note.body.as_str(), mr.web_url.as_str()),
        diffs: Vec::new(),
    }
}

/// A comment counts when a person (not the system) wrote it, that person is
/// `username`, and it was made within `range`.
pub open spec fn counts_note_spec(note: Note, username: Seq<char>, range: DateRange) -> bool {
    !note.system && note.author.username@ == username && range.spec_contains(note.created_at.date)
}

/// Whether `note` is a comment of `username` made within `range`.
pub fn counts_note(note: &Note, username: &str, range: &DateRange) -> (r: bool)
    ensures
        r == counts_note_spec(*note, username@, *range),
{
    !note.system && text_eq(note.author.username.as_str(), username) && range.contains(
        note.created_at.date,
    )
}


/// A comment counts exactly when it is not a system note, the user wrote it,
/// and its day is neither before the range's first day nor after its last;
/// for valid dates, when its day number lies between those of the range's ends.
pub proof fn lemma_counts_note(note: Note, username: Seq<char>, range: DateRange)
    ensures
        counts_note_spec(note, username, range) <==> (!note.system && note.author.username@
            == username && range.start.spec_le(note.created_at.date)
            && note.created_at.date.spec_le(range.end)),
        range.start.is_valid() && range.end.is_valid() && note.created_at.date.is_valid() ==> (
        counts_note_spec(note, username, range) <==> (!note.system && note.author.username@
            == username && range.start.number() <= note.created_at.date.number()
            <= range.end.number())),
{
    if range.start.is_valid() && range.end.is_valid() && note.created_at.date.is_valid() {
        lemma_range_contains(range, note.created_at.date);
    }
}

/// A commit's body is made of the lines after its first: for a message
/// `first` + `\n` + `rest` (with no `\n` in `first`), the first line is `first`
/// (less a closing `\r`) and the body is the lines of `rest`, joined and trimmed;
/// a message of one line has no body.
pub proof fn lemma_commit_body_after_first_line(first: Seq<char>, rest: Seq<char>)
    requires
        !first.contains('\n'),
    ensures
        lines_spec(first + seq!['\n'] + rest) == seq![strip_cr(first)] + lines_spec(rest),
        lines_after_first(first + seq!['\n'] + rest) == lines_spec(rest),
        commit_body(first + seq!['\n'] + rest) == trim_spec(join_spec(lines_spec(rest), "\n"@)),
        lines_after_first(first).len() == 0,
        commit_body(first).len() == 0,
{
    lemma_lines_first_line(first, rest, seq![]);
    assert(Seq::<char>::empty() + first =~= first);
    let m = first + seq!['\n'] + rest;
    assert((seq![strip_cr(first)] + lines_spec(rest)).drop_first() =~= lines_spec(rest));
    lemma_lines_without_newline(first, seq![]);
    assert(join_spec(Seq::<Seq<char>>::empty(), "\n"@).len() == 0);
    assert(trim_spec(Seq::<char>::empty()) =~= Seq::<char>::empty());
}

/// The details of an issue or merge request show its whole description,
/// trimmed: one unbroken piece `s[a..b]` of it, with only white space outside,
/// between the bold title and the link (and, for a merge request, the branches).
pub proof fn lemma_details_show_whole_description(issue: Issue, mr: MergeRequest)
    ensures
        issue.description matches Some(s) ==> exists|a: int, b: int|
            {
                &&& 0 <= a <= b <= s@.len()
                &&& forall|i: int|
                    0 <= i < s@.len() && !(a <= i < b) ==> is_white_space(#[trigger] s@[i])
                &&& a < b ==> issue_details_spec(issue) == "**"@ + issue.title@ + "**\n\n"@
                    + s@.subrange(a, b) + "\n\n[View Issue]("@ + issue.web_url@ + ")"@
                &&& a == b ==> issue_details_spec(issue) == "**"@ + issue.title@
                    + "**\n\n[View Issue]("@ + issue.web_url@ + ")"@
            },
        issue.description is None ==> issue_details_spec(issue) == "**"@ + issue.title@
            + "**\n\n[View Issue]("@ + issue.web_url@ + ")"@,
        mr.description matches Some(s) ==> exists|a: int, b: int|
            {
                &&& 0 <= a <= b <= s@.len()
                &&& forall|i: int|
                    0 <= i < s@.len() && !(a <= i < b) ==> is_white_space(#[trigger] s@[i])
                &&& a < b ==> merge_request_details_spec(mr) == "**"@ + mr.title@ + "**\n\n"@
                    + s@.subrange(a, b) + "\n\n"@ + "`"@ + mr.source_branch@ + "` -> `"@
                    + mr.target_branch@ + "`\n\n[View MR]("@ + mr.web_url@ + ")"@
                &&& a == b ==> merge_request_details_spec(mr) == "**"@ + mr.title@ + "**\n\n"@
                    + "`"@ + mr.source_branch@ + "` -> `"@ + mr.target_branch@ + "`\n\n[View MR]("@
                    + mr.web_url@ + ")"@
            },
        mr.description is None ==> merge_request_details_spec(mr) == "**"@ + mr.title@
            + "**\n\n"@ + "`"@ + mr.source_branch@ + "` -> `"@ + mr.target_branch@
            + "`\n\n[View MR]("@ + mr.web_url@ + ")"@,
{
    if let Some(s) = issue.description {
        lemma_trim_piece(s@);
        let (a, b) = choose|a: int, b: int|
            {
                &&& 0 <= a <= b <= s@.len()
                &&& trim_spec(s@) == s@.subrange(a, b)
                &&& forall|i: int|
                    0 <= i < s@.len() && !(a <= i < b) ==> is_white_space(#[trigger] s@[i])
                &&& a < b ==> !is_white_space(s@[a]) && !is_white_space(s@[b - 1])
            };
        assert(issue_details_spec(issue) == "**"@ + issue.title@ + "**\n\n"@ + s@.subrange(a, b)
            + "\n\n[View Issue]("@ + issue.web_url@ + ")"@ || a == b);
    }
    if let Some(s) = mr.description {
        lemma_trim_piece(s@);
        let (a, b) = choose|a: int, b: int|
            {
                &&& 0 <= a <= b <= s@.len()
                &&& trim_spec(s@) == s@.subrange(a, b)
                &&& forall|i: int|
                    0 <= i < s@.len() && !(a <= i < b) ==> is_white_space(#[trigger] s@[i])
                &&& a < b ==> !is_white_space(s@[a]) && !is_white_space(s@[b - 1])
            };
        if a < b {
            assert(merge_request_details_spec(mr) =~= "**"@ + mr.title@ + "**\n\n"@
                + s@.subrange(a, b) + "\n\n"@ + "`"@ + mr.source_branch@ + "` -> `"@
                + mr.target_branch@ + "`\n\n[View MR]("@ + mr.web_url@ + ")"@);
        } else {
            assert(merge_request_details_spec(mr) =~= "**"@ + mr.title@ + "**\n\n"@
                + "`"@ + mr.source_branch@ + "` -> `"@ + mr.target_branch@ + "`\n\n[View MR]("@
                + mr.web_url@ + ")"@);
        }
    } else {
        assert(merge_request_details_spec(mr) =~= "**"@ + mr.title@ + "**\n\n"@
            + "`"@ + mr.source_branch@ + "` -> `"@ + mr.target_branch@ + "`\n\n[View MR]("@
            + mr.web_url@ + ")"@);
    }
}

} // verus!
