use vstd::prelude::*;
use crate::text::{int_text, parse_i32, parse_i32_spec, push_int, trim, trim_spec};

verus! {

/// Bytes that URL encoding keeps as they are: ASCII letters, digits and `-._~`.
pub open spec fn is_unreserved(b: u8) -> bool {
    ||| (48 <= b <= 57)
    ||| (65 <= b <= 90)
    ||| (97 <= b <= 122)
    ||| b == 45
    ||| b == 46
    ||| b == 95
    ||| b == 126
}

/// Upper-case hexadecimal digit for `v` (`0 <= v < 16`).
pub open spec fn hex_digit(v: int) -> char {
    if v < 10 {
        (48 + v) as char
    } else {
        (55 + v) as char
    }
}

/// Percent-encoding of `bytes`: unreserved bytes as they are, every other
/// byte as `%` and two upper-case hexadecimal digits.
pub open spec fn percent_encode(bytes: Seq<u8>) -> Seq<char>
    decreases bytes.len(),
{
    if bytes.len() == 0 {
        seq![]
    } else {
        let b = bytes[0];
        (if is_unreserved(b) {
            seq![b as char]
        } else {
            seq!['%', hex_digit((b / 16) as int), hex_digit((b % 16) as int)]
        }) + percent_encode(bytes.drop_first())
    }
}

/// urlencoding's `encode`. Trusted: the result percent-encodes the UTF-8
/// bytes of `s` as `percent_encode` says.
#[verifier::external_body]
pub(crate) fn url_encode(s: &str) -> (r: String)
    ensures
        r@ == percent_encode(vstd::utf8::encode_utf8(s@)),
{
    urlencoding::encode(s).into_owned()
}

/// `s` without the `/` characters at its end.
pub open spec fn trim_end_slashes(s: Seq<char>) -> Seq<char>
    decreases s.len(),
{
    if s.len() > 0 && s.last() == '/' {
        trim_end_slashes(s.drop_last())
    } else {
        s
    }
}

/// Where and as whom to reach a GitLab instance.
pub struct GitLabClient {
    pub base_url: String,
    pub token: String,
}

/// Whether `s` holds a `?`.
pub open spec fn has_query(s: Seq<char>) -> bool {
    exists|i: int| 0 <= i < s.len() && s[i] == '?'
}

/// `base` + `/api/v4` + `endpoint`.
pub open spec fn api_url_spec(base: Seq<char>, endpoint: Seq<char>) -> Seq<char> {
    base + "/api/v4"@ + endpoint
}

/// The URL of one page of a paginated endpoint, with 100 items a page.
pub open spec fn page_url_spec(base: Seq<char>, endpoint: Seq<char>, page: i32) -> Seq<char> {
    api_url_spec(base, endpoint) + (if has_query(endpoint) {
        "&"@
    } else {
        "?"@
    }) + "page="@ + int_text(page as int) + "&per_page="@ + int_text(100)
}

impl GitLabClient {
    /// A client for `base_url` (trailing `/` removed) that sends `token`.
    pub fn new(base_url: &str, token: &str) -> (c: GitLabClient)
        ensures
            c.base_url@ == trim_end_slashes(base_url@),
            c.token@ == token@,
    {
        let chars = crate::text::chars_of(base_url);
        let mut end = chars.len();
        assert(chars@.take(chars@.len() as int) =~= chars@);
        while end > 0 && chars[end - 1] == '/'
            invariant
                end <= chars.len(),
                chars@ == base_url@,
                trim_end_slashes(base_url@) == trim_end_slashes(chars@.take(end as int)),
            decreases end,
        {
            assert(chars@.take(end as int).drop_last() =~= chars@.take(end - 1));
            end -= 1;
        }
        assert(chars@.take(chars@.len() as int) =~= chars@);
        let base = crate::text::string_from_chars(&chars, 0, end);
        assert(base@ =~= chars@.take(end as int));
        GitLabClient { base_url: base, token: String::from_str(token) }
    }

    /// The full URL of an API endpoint.
    pub fn api_url(&self, endpoint: &str) -> (url: String)
        ensures
            url@ == api_url_spec(self.base_url@, endpoint@),
    {
        let mut url = self.base_url.clone();
        url.append("/api/v4");
        url.append(endpoint);
        url
    }

    /// The full URL of page `page` of a paginated endpoint.
    pub fn page_url(&self, endpoint: &str, page: i32) -> (url: String)
        ensures
            url@ == page_url_spec(self.base_url@, endpoint@, page),
    {
        let mut url = self.api_url(endpoint);
        let chars = crate::text::chars_of(endpoint);
        let mut query = false;
        let mut k: usize = 0;
        while k < chars.len()
            invariant
                k <= chars.len(),
                chars@ == endpoint@,
                query <==> exists|i: int| 0 <= i < k && chars@[i] == '?',
            decreases chars.len() - k,
        {
            if chars[k] == '?' {
                query = true;
            }
            k += 1;
        }
        if query {
            url.append("&");
        } else {
            url.append("?");
        }
        url.append("page=");
        push_int(&mut url, page as i64);
        url.append("&per_page=");
        push_int(&mut url, 100);
        url
    }
}

/// Endpoint of the signed-in user.
pub fn current_user_endpoint() -> (e: String)
    ensures
        e@ == "/user"@,
{
    String::from_str("/user")
}

/// Endpoint of the projects the user is a member of.
pub fn user_projects_endpoint() -> (e: String)
    ensures
        e@ == "/projects?membership=true"@,
{
    String::from_str("/projects?membership=true")
}

/// `/projects/{id}` followed by `rest`.
pub open spec fn project_path(project_id: i64, rest: Seq<char>) -> Seq<char> {
    "/projects/"@ + int_text(project_id as int) + rest
}

/// Endpoint of the commits of `author` in a project between `since` and `until`.
pub fn commits_by_author_endpoint(project_id: i64, author: &str, since: &str, until: &str) -> (e:
    String)
    ensures
        e@ == project_path(
            project_id,
            "/repository/commits?author="@ + percent_encode(vstd::utf8::encode_utf8(author@))
                + "&since="@ + since@ + "&until="@ + until@,
        ),
{
    let mut e = String::from_str("/projects/");
    push_int(&mut e, project_id);
    e.append("/repository/commits?author=");
    let enc = url_encode(author);
    e.append(enc.as_str());
    e.append("&since=");
    e.append(since);
    e.append("&until=");
    e.append(until);
    assert(e@ =~= project_path(
        project_id,
        "/repository/commits?author="@ + percent_encode(vstd::utf8::encode_utf8(author@))
            + "&since="@ + since@ + "&until="@ + until@,
    ));
    e
}

/// Endpoint of the diff of commit `sha` in a project.
pub fn commit_diff_endpoint(project_id: i64, sha: &str) -> (e: String)
    ensures
        e@ == project_path(project_id, "/repository/commits/"@ + sha@ + "/diff"@),
{
    let mut e = String::from_str("/projects/");
    push_int(&mut e, project_id);
    e.append("/repository/commits/");
    e.append(sha);
    e.append("/diff");
    assert(e@ =~= project_path(project_id, "/repository/commits/"@ + sha@ + "/diff"@));
    e
}

/// `/projects/{id}/{kind}?author_username=..&created_after=..&created_before=..&scope=all`.
pub open spec fn created_by_path(
    project_id: i64,
    kind: Seq<char>,
    author: Seq<char>,
    since: Seq<char>,
    until: Seq<char>,
) -> Seq<char> {
    project_path(
        project_id,
        "/"@ + kind + "?author_username="@ + percent_encode(vstd::utf8::encode_utf8(author))
            + "&created_after="@ + since + "&created_before="@ + until + "&scope=all"@,
    )
}

/// `/projects/{id}/{kind}?updated_after=..&updated_before=..&scope=all`.
pub open spec fn updated_path(
    project_id: i64,
    kind: Seq<char>,
    since: Seq<char>,
    until: Seq<char>,
) -> Seq<char> {
    project_path(
        project_id,
        "/"@ + kind + "?updated_after="@ + since + "&updated_before="@ + until + "&scope=all"@,
    )
}

fn created_by_endpoint(project_id: i64, kind: &str, author: &str, since: &str, until: &str) -> (e:
    String)
    ensures
        e@ == created_by_path(project_id, kind@, author@, since@, until@),
{
    let mut e = String::from_str("/projects/");
    push_int(&mut e, project_id);
    e.append("/");
    e.append(kind);
    e.append("?author_username=");
    let enc = url_encode(author);
    e.append(enc.as_str());
    e.append("&created_after=");
    e.append(since);
    e.append("&created_before=");
    e.append(until);
    e.append("&scope=all");
    assert(e@ =~= created_by_path(project_id, kind@, author@, since@, until@));
    e
}

fn updated_endpoint(project_id: i64, kind: &str, since: &str, until: &str) -> (e: String)
    ensures
        e@ == updated_path(project_id, kind@, since@, until@),
{
    let mut e = String::from_str("/projects/");
    push_int(&mut e, project_id);
    e.append("/");
    e.append(kind);
    e.append("?updated_after=");
    e.append(since);
    e.append("&updated_before=");
    e.append(until);
    e.append("&scope=all");
    assert(e@ =~= updated_path(project_id, kind@, since@, until@));
    e
}

/// Endpoint of the issues `author` opened in a project between `since` and `until`.
pub fn issues_by_author_endpoint(project_id: i64, author: &str, since: &str, until: &str) -> (e:
    String)
    ensures
        e@ == created_by_path(project_id, "issues"@, author@, since@, until@),
{
    created_by_endpoint(project_id, "issues", author, since, until)
}

/// Endpoint of the merge requests `author` opened in a project between `since` and `until`.
pub fn merge_requests_by_author_endpoint(
    project_id: i64,
    author: &str,
    since: &str,
    until: &str,
) -> (e: String)
    ensures
        e@ == created_by_path(project_id, "merge_requests"@, author@, since@, until@),
{
    created_by_endpoint(project_id, "merge_requests", author, since, until)
}

/// Endpoint of the issues of a project updated between `since` and `until`.
pub fn issues_updated_endpoint(project_id: i64, since: &str, until: &str) -> (e: String)
    ensures
        e@ == updated_path(project_id, "issues"@, since@, until@),
{
    updated_endpoint(project_id, "issues", since, until)
}

/// Endpoint of the merge requests of a project updated between `since` and `until`.
pub fn merge_requests_updated_endpoint(project_id: i64, since: &str, until: &str) -> (e: String)
    ensures
        e@ == updated_path(project_id, "merge_requests"@, since@, until@),
{
    updated_endpoint(project_id, "merge_requests", since, until)
}

/// `/projects/{id}/{kind}/{iid}/notes`.
pub open spec fn notes_path(project_id: i64, kind: Seq<char>, iid: i64) -> Seq<char> {
    project_path(project_id, "/"@ + kind + "/"@ + int_text(iid as int) + "/notes"@)
}

fn notes_endpoint(project_id: i64, kind: &str, iid: i64) -> (e: String)
    ensures
        e@ == notes_path(project_id, kind@, iid),
{
    let mut e = String::from_str("/projects/");
    push_int(&mut e, project_id);
    e.append("/");
    e.append(kind);
    e.append("/");
    push_int(&mut e, iid);
    e.append("/notes");
    assert(e@ =~= notes_path(project_id, kind@, iid));
    e
}

/// Endpoint of the notes (comments) on an issue.
pub fn issue_notes_endpoint(project_id: i64, issue_iid: i64) -> (e: String)
    ensures
        e@ == notes_path(project_id, "issues"@, issue_iid),
{
    notes_endpoint(project_id, "issues", issue_iid)
}

/// Endpoint of the notes (comments) on a merge request.
pub fn merge_request_notes_endpoint(project_id: i64, mr_iid: i64) -> (e: String)
    ensures
        e@ == notes_path(project_id, "merge_requests"@, mr_iid),
{
    notes_endpoint(project_id, "merge_requests", mr_iid)
}

/// What to do with a response after reading its status.
#[derive(Clone, Copy, Debug, PartialEq, Eq, Structural)]
pub enum StatusAction {
    /// Read the page.
    ReadPage,
    /// The endpoint is not there (404): stop, keeping what was read.
    Stop,
    /// The request failed: report an error.
    Fail,
}

/// The action for a page response with HTTP status `status`.
pub fn page_status_action(success: bool, status: u16) -> (a: StatusAction)
    ensures
        success ==> a == StatusAction::ReadPage,
        !success && status == 404 ==> a == StatusAction::Stop,
        !success && status != 404 ==> a == StatusAction::Fail,
{
    if success {
        StatusAction::ReadPage
    } else if status == 404 {
        StatusAction::Stop
    } else {
        StatusAction::Fail
    }
}

/// The `x-next-page` header could not be read as a page number.
#[derive(Clone, Copy, Debug, PartialEq, Eq, Structural)]
pub struct InvalidNextPage;

/// The page to fetch after one holding `item_count` items, given its
/// `x-next-page` header: none when the page was empty or the header is
/// missing or blank.
pub open spec fn next_page_spec(item_count: nat, header: Option<Seq<char>>) -> Result<
    Option<i32>,
    InvalidNextPage,
> {
    if item_count == 0 {
        Ok(None)
    } else {
        match header {
            None => Ok(None),
            Some(h) => if trim_spec(h).len() == 0 {
                Ok(None)
            } else {
                match parse_i32_spec(trim_spec(h)) {
                    Some(p) => Ok(Some(p)),
                    None => Err(InvalidNextPage),
                }
            },
        }
    }
}

/// Which page comes next after a page of `item_count` items.
pub fn next_page(item_count: usize, header: Option<&str>) -> (r: Result<Option<i32>, InvalidNextPage>)
    ensures
        r == next_page_spec(
            item_count as nat,
            match header {
                Some(h) => Some(h@),
                None => None,
            },
        ),
{
    if item_count == 0 {
        return Ok(None);
    }
    match header {
        None => Ok(None),
        Some(h) => {
            let t = trim(h);
            if t.as_str().unicode_len() == 0 {
                Ok(None)
            } else {
                match parse_i32(t.as_str()) {
                    Some(p) => Ok(Some(p)),
                    None => Err(InvalidNextPage),
                }
            }
        },
    }
}


/// The base URL kept by a client never ends in `/`, and is the given URL
/// without its trailing slashes.
pub proof fn lemma_trim_end_slashes(s: Seq<char>)
    ensures
        trim_end_slashes(s).len() == 0 || trim_end_slashes(s).last() != '/',
        trim_end_slashes(s).len() <= s.len(),
        trim_end_slashes(s) == s.take(trim_end_slashes(s).len() as int),
        forall|i: int| trim_end_slashes(s).len() <= i < s.len() ==> s[i] == '/',
        trim_end_slashes(trim_end_slashes(s)) == trim_end_slashes(s),
    decreases s.len(),
{
    if s.len() > 0 && s.last() == '/' {
        lemma_trim_end_slashes(s.drop_last());
        let t = trim_end_slashes(s.drop_last());
        assert(s.drop_last().take(t.len() as int) =~= s.take(t.len() as int));
        assert forall|i: int| t.len() <= i < s.len() implies s[i] == '/' by {
            if i < s.len() - 1 {
                assert(s[i] == s.drop_last()[i]);
            }
        }
    } else {
        assert(s.take(s.len() as int) =~= s);
    }
}

} // verus!
