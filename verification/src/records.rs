use vstd::prelude::*;
use crate::calendar::Timestamp;

verus! {

/// A GitLab project the user belongs to.
pub struct Project {
    pub id: i64,
    pub name: String,
    pub path_with_namespace: String,
    pub web_url: String,
}

/// The signed-in GitLab user.
pub struct User {
    pub username: String,
    pub name: String,
}

/// A commit as GitLab lists it.
pub struct Commit {
    pub id: String,
    pub short_id: String,
    pub title: String,
    pub message: String,
    pub authored_date: Timestamp,
    pub web_url: Option<String>,
}

/// One changed file of a commit.
pub struct CommitDiff {
    pub new_path: String,
    pub diff: String,
    pub new_file: bool,
    pub renamed_file: bool,
    pub deleted_file: bool,
}

/// An issue as GitLab lists it.
pub struct Issue {
    pub iid: i64,
    pub title: String,
    pub description: Option<String>,
    pub state: String,
    pub created_at: Timestamp,
    pub web_url: String,
}

/// A merge request as GitLab lists it.
pub struct MergeRequest {
    pub iid: i64,
    pub title: String,
    pub description: Option<String>,
    pub state: String,
    pub created_at: Timestamp,
    pub merged_at: Option<Timestamp>,
    pub web_url: String,
    pub source_branch: String,
    pub target_branch: String,
}

/// The author of a note.
pub struct NoteAuthor {
    pub username: String,
}

/// A note (comment) on an issue or merge request.
pub struct Note {
    pub body: String,
    pub author: NoteAuthor,
    pub created_at: Timestamp,
    pub system: bool,
}

} // verus!
