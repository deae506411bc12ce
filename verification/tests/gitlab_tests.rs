use log_book_git::gitlab::{
    commit_diff_endpoint, commits_by_author_endpoint, current_user_endpoint,
    issue_notes_endpoint, issues_by_author_endpoint, issues_updated_endpoint,
    merge_request_notes_endpoint, merge_requests_by_author_endpoint,
    merge_requests_updated_endpoint, next_page, page_status_action, user_projects_endpoint,
    GitLabClient, InvalidNextPage, StatusAction,
};

#[test]
fn client_drops_trailing_slashes() {
    let c = GitLabClient::new("https://gitlab.com///", "tok");
    assert_eq!(c.base_url, "https://gitlab.com");
    assert_eq!(c.token, "tok");
    let c = GitLabClient::new("https://gitlab.example.org/sub", "t");
    assert_eq!(c.base_url, "https://gitlab.example.org/sub");
    let c = GitLabClient::new("///", "t");
    assert_eq!(c.base_url, "");
}

#[test]
fn api_and_page_urls() {
    let c = GitLabClient::new("https://gitlab.com/", "t");
    assert_eq!(c.api_url("/user"), "https://gitlab.com/api/v4/user");
    assert_eq!(
        c.page_url("/projects?membership=true", 2),
        "https://gitlab.com/api/v4/projects?membership=true&page=2&per_page=100"
    );
    assert_eq!(
        c.page_url("/projects/1/issues/3/notes", 1),
        "https://gitlab.com/api/v4/projects/1/issues/3/notes?page=1&per_page=100"
    );
    assert_eq!(c.page_url("/x", -7), "https://gitlab.com/api/v4/x?page=-7&per_page=100");
}

#[test]
fn endpoints() {
    assert_eq!(current_user_endpoint(), "/user");
    assert_eq!(user_projects_endpoint(), "/projects?membership=true");
    assert_eq!(
        commits_by_author_endpoint(42, "john.doe", "S", "U"),
        "/projects/42/repository/commits?author=john.doe&since=S&until=U"
    );
    assert_eq!(commit_diff_endpoint(7, "abc123"), "/projects/7/repository/commits/abc123/diff");
    assert_eq!(
        issues_by_author_endpoint(1, "me", "S", "U"),
        "/projects/1/issues?author_username=me&created_after=S&created_before=U&scope=all"
    );
    assert_eq!(
        merge_requests_by_author_endpoint(1, "me", "S", "U"),
        "/projects/1/merge_requests?author_username=me&created_after=S&created_before=U&scope=all"
    );
    assert_eq!(
        issues_updated_endpoint(9, "S", "U"),
        "/projects/9/issues?updated_after=S&updated_before=U&scope=all"
    );
    assert_eq!(
        merge_requests_updated_endpoint(9, "S", "U"),
        "/projects/9/merge_requests?updated_after=S&updated_before=U&scope=all"
    );
    assert_eq!(issue_notes_endpoint(3, 12), "/projects/3/issues/12/notes");
    assert_eq!(merge_request_notes_endpoint(3, 5), "/projects/3/merge_requests/5/notes");
    assert_eq!(issue_notes_endpoint(-3, 0), "/projects/-3/issues/0/notes");
}

#[test]
fn author_is_url_encoded() {
    assert_eq!(
        commits_by_author_endpoint(1, "john doe+1/x", "S", "U"),
        "/projects/1/repository/commits?author=john%20doe%2B1%2Fx&since=S&until=U"
    );
    assert_eq!(
        issues_by_author_endpoint(1, "é~_-", "S", "U"),
        "/projects/1/issues?author_username=%C3%A9~_-&created_after=S&created_before=U&scope=all"
    );
}

#[test]
fn page_status() {
    assert_eq!(page_status_action(true, 200), StatusAction::ReadPage);
    assert_eq!(page_status_action(false, 404), StatusAction::Stop);
    assert_eq!(page_status_action(false, 500), StatusAction::Fail);
    assert_eq!(page_status_action(false, 401), StatusAction::Fail);
}

#[test]
fn next_page_decisions() {
    assert_eq!(next_page(0, Some("2")), Ok(None));
    assert_eq!(next_page(3, None), Ok(None));
    assert_eq!(next_page(3, Some("")), Ok(None));
    assert_eq!(next_page(3, Some("   ")), Ok(None));
    assert_eq!(next_page(3, Some(" 4 ")), Ok(Some(4)));
    assert_eq!(next_page(3, Some("17")), Ok(Some(17)));
    assert_eq!(next_page(3, Some("x")), Err(InvalidNextPage));
    assert_eq!(next_page(1, Some("99999999999")), Err(InvalidNextPage));
}
