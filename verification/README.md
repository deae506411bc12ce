# log_book_git

Collects a GitLab user's activity (commits, issues, merge requests and
comments) over a month or a number of days and writes it as a Markdown report
grouped by week and by day.

- `src/` is the library, verified with Verus:
  - `text`: characters, trimming, lines, number parsing and printing, text order,
    and the cutting of long comments and diffs.
  - `calendar`: dates and times (as chrono holds them), day numbers, weeks, and
    the calls into chrono.
  - `range`: the date range of a report, from `MM/YYYY` or from a number of days.
  - `gitlab`: API URLs and endpoints, URL encoding, and the paging decisions.
  - `records`: what GitLab returns, as plain values.
  - `details`: the details and action lines of each kind of activity.
  - `report`: the report, grouped by week, and its Markdown.
  - `collect`: the scans over a project and over comments, as state machines
    that say what to fetch next and take in what was fetched.
- `app/main.rs` is the command line program: arguments, HTTP requests, JSON,
  printing and the output file.
- `tests/` runs the library on concrete values.
