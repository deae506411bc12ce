use vstd::prelude::*;
use crate::calendar::{
    chrono_add_days, chrono_format_date, chrono_format_time, chrono_utc_now, date_text,
    date_with_number, day_heading_text, first_day_number, get_week_start, last_day_number,
    lemma_date_text_injective, lemma_date_with_number, lemma_supported_range,
    lemma_week_start, long_date_text, utc_time_text,
    week_start_number, Date, Timestamp,
};
use crate::text::{lemma_text_lt_order, text_less, text_lt, truncate_diff, truncate_diff_spec};

verus! {

/// One changed file shown under an activity.
pub struct DiffEntry {
    pub file_path: String,
    pub change_type: String,
    pub diff_content: String,
}

/// One piece of activity (a commit, issue, merge request or comment).
pub struct ActivityEntry {
    pub date: Timestamp,
    pub project_name: String,
    pub project_url: String,
    pub action: String,
    pub details: String,
    pub diffs: Vec<DiffEntry>,
}

/// The activity of one week, keyed by its Monday as `%Y-%m-%d`.
pub struct WeekGroup {
    pub key: String,
    pub start: Date,
    pub entries: Vec<ActivityEntry>,
}

/// The key under which an activity at `date` is filed: its week's Monday as `%Y-%m-%d`.
pub open spec fn week_key(date: Timestamp) -> Seq<char> {
    date_text(date_with_number(week_start_number(date.date.number())))
}

/// Whether activity at `date` can be filed: a valid time whose week starts on
/// a date chrono can hold.
pub open spec fn fileable(date: Timestamp) -> bool {
    date.is_valid() && week_start_number(date.date.number()) >= first_day_number()
}

/// `m` with `entry` appended to the activity under its week's key.
pub open spec fn file_entry(
    m: Map<Seq<char>, Seq<ActivityEntry>>,
    entry: ActivityEntry,
) -> Map<Seq<char>, Seq<ActivityEntry>> {
    m.insert(
        week_key(entry.date),
        (if m.contains_key(week_key(entry.date)) {
            m[week_key(entry.date)]
        } else {
            Seq::<ActivityEntry>::empty()
        }).push(entry),
    )
}

/// `m` with `entries` filed one after the other.
pub open spec fn file_all(
    m: Map<Seq<char>, Seq<ActivityEntry>>,
    entries: Seq<ActivityEntry>,
) -> Map<Seq<char>, Seq<ActivityEntry>>
    decreases entries.len(),
{
    if entries.len() == 0 {
        m
    } else {
        file_entry(file_all(m, entries.drop_last()), entries.last())
    }
}

impl WeekGroup {
    /// The week starts on a valid Monday named by `key`, and holds at least one
    /// activity, all of that week and at valid times.
    pub open spec fn wf(self) -> bool {
        &&& self.entries.len() > 0
        &&& self.start.is_valid()
        &&& self.start.number() % 7 == 0
        &&& self.key@ == date_text(self.start)
        &&& forall|j: int|
            0 <= j < self.entries.len() ==> (#[trigger] self.entries@[j]).date.is_valid()
                && week_start_number(self.entries@[j].date.date.number()) == self.start.number()
    }
}

/// Activity grouped by week.
pub struct ActivityReport {
    pub weeks: Vec<WeekGroup>,
}

impl ActivityReport {
    /// Each week is well formed, and the weeks are kept in strictly descending key order.
    pub open spec fn wf(self) -> bool {
        &&& forall|i: int| 0 <= i < self.weeks.len() ==> (#[trigger] self.weeks@[i]).wf()
        &&& forall|i: int, j: int|
            0 <= i < j < self.weeks.len() ==> text_lt(
                (#[trigger] self.weeks@[j]).key@,
                (#[trigger] self.weeks@[i]).key@,
            )
    }

    /// Whether a week has key `k`.
    pub open spec fn has_week(self, k: Seq<char>) -> bool {
        exists|i: int| 0 <= i < self.weeks.len() && (#[trigger] self.weeks@[i]).key@ == k
    }

    /// The activity filed under key `k`.
    pub open spec fn week_entries(self, k: Seq<char>) -> Seq<ActivityEntry> {
        self.weeks@[choose|i: int|
            0 <= i < self.weeks.len() && (#[trigger] self.weeks@[i]).key@ == k].entries@
    }

    /// The report as a map from week key to the activity filed under it, in filing order.
    pub open spec fn week_map(self) -> Map<Seq<char>, Seq<ActivityEntry>> {
        Map::new(|k: Seq<char>| self.has_week(k), |k: Seq<char>| self.week_entries(k))
    }

    /// The activity under week `i` is what the map gives for its key.
    pub proof fn lemma_week_entries(self, i: int)
        requires
            self.wf(),
            0 <= i < self.weeks.len(),
        ensures
            self.week_entries(self.weeks@[i].key@) == self.weeks@[i].entries@,
    {
        let k = self.weeks@[i].key@;
        let c = choose|j: int| 0 <= j < self.weeks.len() && (#[trigger] self.weeks@[j]).key@ == k;
        assert(0 <= c < self.weeks.len() && self.weeks@[c].key@ == k);
        lemma_text_lt_order(k, k, k);
        if c < i {
            assert(text_lt(self.weeks@[i].key@, self.weeks@[c].key@));
        } else if c > i {
            assert(text_lt(self.weeks@[c].key@, self.weeks@[i].key@));
        }
    }

    /// An empty report.
    pub fn new() -> (r: ActivityReport)
        ensures
            r.wf(),
            r.week_map() == Map::<Seq<char>, Seq<ActivityEntry>>::empty(),
    {
        let r = ActivityReport { weeks: Vec::new() };
        assert(r.week_map() =~= Map::<Seq<char>, Seq<ActivityEntry>>::empty());
        r
    }

    /// Files `entry` under the week of its date.
    pub fn add_entry(&mut self, entry: ActivityEntry)
        requires
            old(self).wf(),
            fileable(entry.date),
        ensures
            final(self).wf(),
            final(self).week_map() == file_entry(old(self).week_map(), entry),
            entry_count(final(self).weeks@) == entry_count(old(self).weeks@) + 1,
    {
        let ghost old_self = *self;
        let start = get_week_start(&entry.date);
        let key = chrono_format_date(&start, "%Y-%m-%d");
        proof {
            lemma_date_with_number(start);
        }
        let ghost k = key@;
        assert(k == week_key(entry.date));
        let mut i: usize = 0;
        while i < self.weeks.len() && text_less(key.as_str(), self.weeks[i].key.as_str())
            invariant
                i <= self.weeks.len(),
                *self == old_self,
                key@ == k,
                forall|j: int| 0 <= j < i ==> text_lt(k, (#[trigger] self.weeks@[j]).key@),
            decreases self.weeks.len() - i,
        {
            i += 1;
        }
        let found = i < self.weeks.len() && self.weeks[i].key == key;
        if found {
            let mut g = self.weeks.remove(i);
            g.entries.push(entry);
            self.weeks.insert(i, g);
            proof {
                let ws = self.weeks@;
                let olds = old_self.weeks@;
                assert(ws =~= olds.update(i as int, ws[i as int]));
                assert(ws[i as int].entries@ == olds[i as int].entries@.push(entry));
                assert(olds[i as int].wf());
                lemma_date_text_injective(olds[i as int].start, start);
                assert(ws[i as int].wf());
                assert(self.wf());
                old_self.lemma_week_entries(i as int);
                lemma_map_after_append(old_self, *self, i as int, entry);
                lemma_entry_count_update(olds, i as int, ws[i as int]);
            }
        } else {
            let mut entries: Vec<ActivityEntry> = Vec::new();
            entries.push(entry);
            let g = WeekGroup { key, start, entries };
            self.weeks.insert(i, g);
            proof {
                let ws = self.weeks@;
                let olds = old_self.weeks@;
                assert(ws =~= olds.insert(i as int, ws[i as int]));
                assert forall|j: int| 0 <= j < olds.len() implies #[trigger] olds[j].key@ != k
                    && (j >= i ==> text_lt(olds[j].key@, k)) by {
                    lemma_text_lt_order(k, k, k);
                    if j >= i {
                        lemma_text_lt_order(olds[i as int].key@, k, k);
                        lemma_text_lt_order(olds[j].key@, olds[i as int].key@, k);
                    }
                }
                assert forall|a: int, b: int| 0 <= a < b < ws.len() implies text_lt(
                    (#[trigger] ws[b]).key@,
                    (#[trigger] ws[a]).key@,
                ) by {
                    if a < i && b > i {
                        assert(ws[b] == olds[b - 1]);
                    }
                }
                assert(self.wf());
                assert(ws[i as int].entries@ =~= Seq::<ActivityEntry>::empty().push(entry));
                lemma_map_after_insert(old_self, *self, i as int);
                lemma_entry_count_insert(olds, i as int, ws[i as int]);
            }
        }
    }
}

/// The number of activities over all weeks.
pub open spec fn entry_count(ws: Seq<WeekGroup>) -> nat
    decreases ws.len(),
{
    if ws.len() == 0 {
        0
    } else {
        ws[0].entries@.len() + entry_count(ws.drop_first())
    }
}

proof fn lemma_entry_count_update(ws: Seq<WeekGroup>, i: int, w: WeekGroup)
    requires
        0 <= i < ws.len(),
    ensures
        entry_count(ws.update(i, w)) == entry_count(ws) - ws[i].entries@.len() + w.entries@.len(),
    decreases ws.len(),
{
    if i == 0 {
        assert(ws.update(i, w).drop_first() =~= ws.drop_first());
    } else {
        assert(ws.update(i, w).drop_first() =~= ws.drop_first().update(i - 1, w));
        lemma_entry_count_update(ws.drop_first(), i - 1, w);
    }
}

proof fn lemma_entry_count_insert(ws: Seq<WeekGroup>, i: int, w: WeekGroup)
    requires
        0 <= i <= ws.len(),
    ensures
        entry_count(ws.insert(i, w)) == entry_count(ws) + w.entries@.len(),
    decreases ws.len(),
{
    if i == 0 {
        assert(ws.insert(i, w).drop_first() =~= ws);
    } else {
        assert(ws.insert(i, w).drop_first() =~= ws.drop_first().insert(i - 1, w));
        lemma_entry_count_insert(ws.drop_first(), i - 1, w);
    }
}

/// Replacing week `i` by one with the same key and one more entry changes the map only there.
proof fn lemma_map_after_append(
    old_r: ActivityReport,
    new_r: ActivityReport,
    i: int,
    entry: ActivityEntry,
)
    requires
        old_r.wf(),
        new_r.wf(),
        0 <= i < old_r.weeks.len(),
        new_r.weeks@ == old_r.weeks@.update(i, new_r.weeks@[i]),
        new_r.weeks@[i].key@ == old_r.weeks@[i].key@,
        new_r.weeks@[i].entries@ == old_r.weeks@[i].entries@.push(entry),
    ensures
        new_r.week_map() == old_r.week_map().insert(
            old_r.weeks@[i].key@,
            old_r.week_map()[old_r.weeks@[i].key@].push(entry),
        ),
{
    let k = old_r.weeks@[i].key@;
    old_r.lemma_week_entries(i);
    new_r.lemma_week_entries(i);
    assert forall|j: int| 0 <= j < new_r.weeks.len() && j != i implies new_r.week_entries(
        #[trigger] new_r.weeks@[j].key@,
    ) == old_r.week_entries(new_r.weeks@[j].key@) by {
        old_r.lemma_week_entries(j);
        new_r.lemma_week_entries(j);
    }
    assert forall|c: Seq<char>| new_r.has_week(c) == (old_r.has_week(c) || c == k) by {
        if old_r.has_week(c) {
            let j = choose|j: int| 0 <= j < old_r.weeks.len() && (#[trigger] old_r.weeks@[j]).key@ == c;
            if j != i {
                assert(new_r.weeks@[j] == old_r.weeks@[j]);
            }
        }
        if new_r.has_week(c) {
            let j = choose|j: int| 0 <= j < new_r.weeks.len() && (#[trigger] new_r.weeks@[j]).key@ == c;
            if j != i {
                assert(new_r.weeks@[j] == old_r.weeks@[j]);
            }
        }
    }
    assert forall|c: Seq<char>| new_r.has_week(c) && c != k implies new_r.week_entries(c)
        == old_r.week_entries(c) by {
        let j = choose|j: int| 0 <= j < new_r.weeks.len() && (#[trigger] new_r.weeks@[j]).key@ == c;
        assert(new_r.weeks@[j].key@ == c);
    }
    assert(new_r.week_map() =~= old_r.week_map().insert(k, old_r.week_map()[k].push(entry)));
}

/// Inserting a week with a new key at place `i` adds that key to the map.
proof fn lemma_map_after_insert(old_r: ActivityReport, new_r: ActivityReport, i: int)
    requires
        old_r.wf(),
        new_r.wf(),
        0 <= i <= old_r.weeks.len(),
        new_r.weeks@ == old_r.weeks@.insert(i, new_r.weeks@[i]),
        !old_r.has_week(new_r.weeks@[i].key@),
    ensures
        new_r.week_map() == old_r.week_map().insert(
            new_r.weeks@[i].key@,
            new_r.weeks@[i].entries@,
        ),
{
    let k = new_r.weeks@[i].key@;
    new_r.lemma_week_entries(i);
    assert forall|c: Seq<char>| new_r.has_week(c) == (old_r.has_week(c) || c == k) by {
        if old_r.has_week(c) {
            let j = choose|j: int| 0 <= j < old_r.weeks.len() && (#[trigger] old_r.weeks@[j]).key@ == c;
            if j < i {
                assert(new_r.weeks@[j] == old_r.weeks@[j]);
            } else {
                assert(new_r.weeks@[j + 1] == old_r.weeks@[j]);
            }
        }
        if new_r.has_week(c) && c != k {
            let j = choose|j: int| 0 <= j < new_r.weeks.len() && (#[trigger] new_r.weeks@[j]).key@ == c;
            if j < i {
                assert(new_r.weeks@[j] == old_r.weeks@[j]);
            } else if j > i {
                assert(new_r.weeks@[j] == old_r.weeks@[j - 1]);
            }
        }
    }
    assert forall|c: Seq<char>| old_r.has_week(c) implies new_r.week_entries(c)
        == old_r.week_entries(c) by {
        let j = choose|j: int| 0 <= j < old_r.weeks.len() && (#[trigger] old_r.weeks@[j]).key@ == c;
        old_r.lemma_week_entries(j);
        if j < i {
            assert(new_r.weeks@[j] == old_r.weeks@[j]);
            new_r.lemma_week_entries(j);
        } else {
            assert(new_r.weeks@[j + 1] == old_r.weeks@[j]);
            new_r.lemma_week_entries(j + 1);
        }
    }
    assert(new_r.week_map() =~= old_r.week_map().insert(k, new_r.weeks@[i].entries@));
}


/// At most this many lines of a diff are shown.
pub const DIFF_LINE_LIMIT: usize = 100;

/// A changed file in Markdown: its path and kind of change, then its diff
/// (cut to `DIFF_LINE_LIMIT` lines) in a fenced block.
pub open spec fn diff_text(d: DiffEntry) -> Seq<char> {
    "**"@ + d.file_path@ + "** ("@ + d.change_type@ + ")\n\n"@ + "```diff\n"@ + truncate_diff_spec(
        d.diff_content@,
        DIFF_LINE_LIMIT as nat,
    ) + "\n```\n\n"@
}

/// The changed files in Markdown, one after the other.
pub open spec fn diffs_text(ds: Seq<DiffEntry>) -> Seq<char>
    decreases ds.len(),
{
    if ds.len() == 0 {
        seq![]
    } else {
        diff_text(ds[0]) + diffs_text(ds.drop_first())
    }
}

/// One activity in Markdown: a heading with the action and a link to the
/// project, the details, the code changes (folded, when there are any) and a rule.
pub open spec fn entry_text(e: ActivityEntry) -> Seq<char> {
    "#### "@ + e.action@ + " - ["@ + e.project_name@ + "]("@ + e.project_url@ + ")\n\n"@
        + e.details@ + "\n\n"@ + (if e.diffs.len() == 0 {
        Seq::<char>::empty()
    } else {
        "<details>\n<summary>Code Changes</summary>\n\n"@ + diffs_text(e.diffs@)
            + "</details>\n\n"@
    }) + "---\n\n"@
}

/// Activities in Markdown, each day's under a heading for that day; `current_day`
/// is the day (as `%Y-%m-%d`) whose heading was written last.
pub open spec fn entries_text(es: Seq<ActivityEntry>, current_day: Seq<char>) -> Seq<char>
    decreases es.len(),
{
    if es.len() == 0 {
        seq![]
    } else {
        let day = date_text(es[0].date.date);
        (if day != current_day {
            "### "@ + day_heading_text(es[0].date.date) + "\n\n"@
        } else {
            Seq::<char>::empty()
        }) + entry_text(es[0]) + entries_text(es.drop_first(), day)
    }
}

/// Where a stable sort from latest to earliest puts `e` among the already sorted
/// `sorted`: after every activity at the same time or later.
pub open spec fn insert_place(sorted: Seq<ActivityEntry>, e: ActivityEntry) -> nat
    decreases sorted.len(),
{
    if sorted.len() > 0 && e.date.spec_le(sorted[0].date) {
        1 + insert_place(sorted.drop_first(), e)
    } else {
        0
    }
}

/// `es` sorted from latest to earliest, activities at the same time kept in their order.
pub open spec fn sort_latest_first(es: Seq<ActivityEntry>) -> Seq<ActivityEntry>
    decreases es.len(),
{
    if es.len() == 0 {
        seq![]
    } else {
        let sorted = sort_latest_first(es.drop_last());
        sorted.insert(insert_place(sorted, es.last()) as int, es.last())
    }
}

/// A week in Markdown: a heading from its Monday to its Sunday, then its
/// activity from latest to earliest.
pub open spec fn week_text(w: WeekGroup) -> Seq<char> {
    "## Week: "@ + long_date_text(w.start) + " to "@ + long_date_text(
        date_with_number(w.start.number() + 6),
    ) + "\n\n"@ + entries_text(sort_latest_first(w.entries@), Seq::<char>::empty())
}

/// Weeks in Markdown, in the order given.
pub open spec fn weeks_text(ws: Seq<WeekGroup>) -> Seq<char>
    decreases ws.len(),
{
    if ws.len() == 0 {
        seq![]
    } else {
        week_text(ws[0]) + weeks_text(ws.drop_first())
    }
}

/// The whole report in Markdown, stamped with `generated_on`.
pub open spec fn report_text(ws: Seq<WeekGroup>, generated_on: Seq<char>) -> Seq<char> {
    "# GitLab Activity Report\n\n"@ + "Generated on: "@ + generated_on + "\n\n"@ + weeks_text(ws)
}

/// Appends the Markdown of one changed file.
fn push_diff(md: &mut String, d: &DiffEntry)
    ensures
        final(md)@ == old(md)@ + diff_text(*d),
{
    md.append("**");
    md.append(d.file_path.as_str());
    md.append("** (");
    md.append(d.change_type.as_str());
    md.append(")\n\n");
    md.append("```diff\n");
    let cut = truncate_diff(d.diff_content.as_str(), DIFF_LINE_LIMIT);
    md.append(cut.as_str());
    md.append("\n```\n\n");
    assert(final(md)@ =~= old(md)@ + diff_text(*d));
}

/// Appends the Markdown of one activity.
fn push_entry(md: &mut String, e: &ActivityEntry)
    ensures
        final(md)@ == old(md)@ + entry_text(*e),
{
    let ghost start = md@;
    md.append("#### ");
    md.append(e.action.as_str());
    md.append(" - [");
    md.append(e.project_name.as_str());
    md.append("](");
    md.append(e.project_url.as_str());
    md.append(")\n\n");
    md.append(e.details.as_str());
    md.append("\n\n");
    let ghost before_diffs = md@;
    if e.diffs.len() > 0 {
        md.append("<details>\n<summary>Code Changes</summary>\n\n");
        let ghost open_at = md@;
        let mut k: usize = 0;
        assert(e.diffs@.skip(0) =~= e.diffs@);
        while k < e.diffs.len()
            invariant
                k <= e.diffs.len(),
                md@ + diffs_text(e.diffs@.skip(k as int)) == open_at + diffs_text(e.diffs@),
            decreases e.diffs.len() - k,
        {
            assert(e.diffs@.skip(k as int).drop_first() =~= e.diffs@.skip(k + 1));
            push_diff(md, &e.diffs[k]);
            k += 1;
        }
        assert(e.diffs@.skip(e.diffs.len() as int) =~= Seq::<DiffEntry>::empty());
        md.append("</details>\n\n");
    }
    md.append("---\n\n");
    assert(final(md)@ =~= old(md)@ + entry_text(*e));
}

/// The positions of `es` sorted from latest to earliest (stably).
fn sorted_positions(es: &Vec<ActivityEntry>) -> (idx: Vec<usize>)
    ensures
        forall|k: int| 0 <= k < idx.len() ==> (#[trigger] idx@[k]) < es.len(),
        idx@.map_values(|p: usize| es@[p as int]) == sort_latest_first(es@),
{
    let mut idx: Vec<usize> = Vec::new();
    let mut n: usize = 0;
    while n < es.len()
        invariant
            n <= es.len(),
            forall|k: int| 0 <= k < idx.len() ==> (#[trigger] idx@[k]) < n,
            idx@.map_values(|p: usize| es@[p as int]) == sort_latest_first(es@.take(n as int)),
        decreases es.len() - n,
    {
        let ghost sorted = idx@.map_values(|p: usize| es@[p as int]);
        let ghost e = es@[n as int];
        let mut place: usize = 0;
        assert(sorted.skip(0) =~= sorted);
        while place < idx.len() && es[n].date.is_at_or_before(&es[idx[place]].date)
            invariant
                place <= idx.len(),
                n < es.len(),
                forall|k: int| 0 <= k < idx.len() ==> (#[trigger] idx@[k]) < n,
                sorted == idx@.map_values(|p: usize| es@[p as int]),
                e == es@[n as int],
                insert_place(sorted, e) == place + insert_place(sorted.skip(place as int), e),
            decreases idx.len() - place,
        {
            assert(sorted.skip(place as int).drop_first() =~= sorted.skip(place + 1));
            place += 1;
        }
        proof {
            assert(sorted.skip(place as int).len() == 0 || !e.date.spec_le(
                sorted.skip(place as int)[0].date,
            ));
            assert(es@.take(n + 1).drop_last() =~= es@.take(n as int));
            assert(es@.take(n + 1).last() == e);
        }
        idx.insert(place, n);
        assert(idx@.map_values(|p: usize| es@[p as int]) =~= sorted.insert(place as int, e));
        n += 1;
    }
    assert(es@.take(es.len() as int) =~= es@);
    idx
}

impl ActivityReport {
    /// Every week ends (six days after its Monday) on a date chrono can hold.
    pub open spec fn renderable(self) -> bool {
        forall|i: int|
            0 <= i < self.weeks.len() ==> (#[trigger] self.weeks@[i]).start.number() + 6
                <= last_day_number()
    }

    /// Appends the Markdown of week `w`.
    fn push_week(md: &mut String, w: &WeekGroup)
        requires
            w.wf(),
            w.start.number() + 6 <= last_day_number(),
        ensures
            final(md)@ == old(md)@ + week_text(*w),
    {
        proof {
            lemma_supported_range(w.start.year as int, w.start.month as int, w.start.day as int);
        }
        let end = match chrono_add_days(&w.start, 6) {
            Some(d) => d,
            None => w.start,
        };
        proof {
            lemma_date_with_number(end);
        }
        md.append("## Week: ");
        let from = chrono_format_date(&w.start, "%B %d, %Y");
        md.append(from.as_str());
        md.append(" to ");
        let to = chrono_format_date(&end, "%B %d, %Y");
        md.append(to.as_str());
        md.append("\n\n");
        let ghost head = md@;
        let idx = sorted_positions(&w.entries);
        let ghost sorted = sort_latest_first(w.entries@);
        assert(sorted.len() == idx.len());
        let mut current = String::new();
        let mut k: usize = 0;
        assert(sorted.skip(0) =~= sorted);
        while k < idx.len()
            invariant
                k <= idx.len() == sorted.len(),
                w.wf(),
                forall|j: int| 0 <= j < idx.len() ==> (#[trigger] idx@[j]) < w.entries.len(),
                forall|j: int| 0 <= j < idx.len() ==> #[trigger] sorted[j] == w.entries@[idx@[j] as int],
                md@ + entries_text(sorted.skip(k as int), current@) == head + entries_text(
                    sorted,
                    Seq::<char>::empty(),
                ),
            decreases idx.len() - k,
        {
            let e = &w.entries[idx[k]];
            assert(*e == sorted[k as int]);
            assert(sorted.skip(k as int).drop_first() =~= sorted.skip(k + 1));
            assert(sorted.skip(k as int)[0] == sorted[k as int]);
            let day = chrono_format_time(&e.date, "%Y-%m-%d");
            if !(day == current) {
                md.append("### ");
                let heading = chrono_format_time(&e.date, "%A, %B %d, %Y");
                md.append(heading.as_str());
                md.append("\n\n");
            }
            push_entry(md, e);
            current = day;
            k += 1;
        }
        assert(sorted.skip(idx.len() as int) =~= Seq::<ActivityEntry>::empty());
        assert(final(md)@ =~= old(md)@ + week_text(*w));
    }

    /// The report in Markdown, stamped with `generated_on`.
    pub fn render_markdown(&self, generated_on: &str) -> (md: String)
        requires
            self.wf(),
            self.renderable(),
        ensures
            md@ == report_text(self.weeks@, generated_on@),
    {
        let mut md = String::new();
        md.append("# GitLab Activity Report\n\n");
        md.append("Generated on: ");
        md.append(generated_on);
        md.append("\n\n");
        let ghost head = md@;
        let mut i: usize = 0;
        assert(self.weeks@.skip(0) =~= self.weeks@);
        while i < self.weeks.len()
            invariant
                i <= self.weeks.len(),
                self.wf(),
                self.renderable(),
                md@ + weeks_text(self.weeks@.skip(i as int)) == head + weeks_text(self.weeks@),
            decreases self.weeks.len() - i,
        {
            assert(self.weeks@.skip(i as int).drop_first() =~= self.weeks@.skip(i + 1));
            assert(self.weeks@[i as int].wf());
            Self::push_week(&mut md, &self.weeks[i]);
            i += 1;
        }
        assert(self.weeks@.skip(self.weeks.len() as int) =~= Seq::<WeekGroup>::empty());
        assert(md@ =~= report_text(self.weeks@, generated_on@));
        md
    }

    /// The report in Markdown, stamped with the current time (UTC).
    pub fn to_markdown(&self) -> (md: String)
        requires
            self.wf(),
            self.renderable(),
        ensures
            exists|t: Timestamp| t.is_valid() && md@ == report_text(self.weeks@, utc_time_text(t)),
    {
        let now = chrono_utc_now();
        let stamp = chrono_format_time(&now, "%Y-%m-%d %H:%M:%S UTC");
        self.render_markdown(stamp.as_str())
    }
}


/// `es` runs from latest to earliest.
pub open spec fn latest_first(es: Seq<ActivityEntry>) -> bool {
    forall|i: int, j: int| 0 <= i < j < es.len() ==> (#[trigger] es[j]).date.spec_le((#[trigger] es[i]).date)
}

/// The order of times is a total preorder.
pub proof fn lemma_time_order(a: Timestamp, b: Timestamp, c: Timestamp)
    ensures
        a.spec_le(a),
        a.spec_le(b) || b.spec_le(a),
        a.spec_le(b) && b.spec_le(c) ==> a.spec_le(c),
{
}

proof fn lemma_insert_place(sorted: Seq<ActivityEntry>, e: ActivityEntry)
    ensures
        insert_place(sorted, e) <= sorted.len(),
        forall|i: int| 0 <= i < insert_place(sorted, e) ==> e.date.spec_le(#[trigger] sorted[i].date),
        insert_place(sorted, e) < sorted.len() ==> !e.date.spec_le(
            sorted[insert_place(sorted, e) as int].date,
        ),
    decreases sorted.len(),
{
    if sorted.len() > 0 && e.date.spec_le(sorted[0].date) {
        lemma_insert_place(sorted.drop_first(), e);
        assert forall|i: int| 0 <= i < insert_place(sorted, e) implies e.date.spec_le(
            #[trigger] sorted[i].date,
        ) by {
            if i > 0 {
                assert(sorted[i] == sorted.drop_first()[i - 1]);
            }
        }
    }
}

/// The activities of `es` at time `t`, in their order in `es`.
pub open spec fn at_time(es: Seq<ActivityEntry>, t: Timestamp) -> Seq<ActivityEntry>
    decreases es.len(),
{
    if es.len() == 0 {
        seq![]
    } else if es.last().date == t {
        at_time(es.drop_last(), t).push(es.last())
    } else {
        at_time(es.drop_last(), t)
    }
}

proof fn lemma_at_time_insert(s: Seq<ActivityEntry>, p: int, e: ActivityEntry, t: Timestamp)
    requires
        0 <= p <= s.len(),
        e.date == t ==> forall|i: int| p <= i < s.len() ==> (#[trigger] s[i]).date != t,
    ensures
        at_time(s.insert(p, e), t) == (if e.date == t {
            at_time(s, t).push(e)
        } else {
            at_time(s, t)
        }),
    decreases s.len(),
{
    if p == s.len() {
        assert(s.insert(p, e).drop_last() =~= s);
    } else {
        let rest = s.drop_last();
        assert(s.insert(p, e).drop_last() =~= rest.insert(p, e));
        assert(s.insert(p, e).last() == s.last());
        assert(e.date == t ==> s[s.len() - 1].date != t);
        lemma_at_time_insert(rest, p, e, t);
    }
}

/// Sorting activity from latest to earliest keeps every activity, once each,
/// puts later activity first, and keeps activities at the same time in their
/// order (the sort is stable).
pub proof fn lemma_sort_latest_first(es: Seq<ActivityEntry>)
    ensures
        sort_latest_first(es).len() == es.len(),
        sort_latest_first(es).to_multiset() == es.to_multiset(),
        latest_first(sort_latest_first(es)),
        forall|t: Timestamp| #[trigger] at_time(sort_latest_first(es), t) == at_time(es, t),
    decreases es.len(),
{
    broadcast use vstd::seq_lib::group_to_multiset_ensures;

    if es.len() > 0 {
        let rest = es.drop_last();
        let e = es.last();
        lemma_sort_latest_first(rest);
        let sorted = sort_latest_first(rest);
        let p = insert_place(sorted, e) as int;
        lemma_insert_place(sorted, e);
        let t = sorted.insert(p, e);
        assert(t.remove(p) =~= sorted);
        assert(t[p] == e);
        assert(t.to_multiset() =~= sorted.to_multiset().insert(e)) by {
            assert(t.remove(p).to_multiset() =~= t.to_multiset().remove(t[p]));
            assert(t.to_multiset().count(e) > 0) by {
                assert(t.contains(e));
            }
        }
        assert(rest.push(e) =~= es);
        assert forall|i: int, j: int| 0 <= i < j < t.len() implies (#[trigger] t[j]).date.spec_le(
            (#[trigger] t[i]).date,
        ) by {
            if j == p {
                assert(t[i] == sorted[i]);
            } else if i == p {
                assert(t[j] == sorted[j - 1]);
                if p < sorted.len() {
                    lemma_time_order(sorted[j - 1].date, sorted[p].date, e.date);
                    lemma_time_order(e.date, sorted[p].date, e.date);
                }
            } else {
                let ii = if i < p { i } else { i - 1 };
                let jj = if j < p { j } else { j - 1 };
                assert(t[i] == sorted[ii]);
                assert(t[j] == sorted[jj]);
            }
        }
        assert forall|time: Timestamp| #[trigger] at_time(t, time) == at_time(es, time) by {
            assert forall|i: int| p <= i < sorted.len() implies (#[trigger] sorted[i]).date != e.date by {
                lemma_time_order(sorted[i].date, sorted[p].date, e.date);
                lemma_time_order(e.date, sorted[i].date, sorted[p].date);
            }
            lemma_at_time_insert(sorted, p, e, time);
            assert(es.drop_last() == rest);
        }
    }
}


/// Every activity in a week of the report happened between that week's Monday
/// and the Sunday after it.
pub proof fn lemma_week_members(report: ActivityReport, i: int, j: int)
    requires
        report.wf(),
        0 <= i < report.weeks.len(),
        0 <= j < report.weeks@[i].entries.len(),
    ensures
        ({
            let week = report.weeks@[i];
            let day = week.entries@[j].date.date;
            &&& week.start.weekday() == 0
            &&& week.start.number() <= day.number() <= week.start.number() + 6
            &&& week_key(week.entries@[j].date) == week.key@
        }),
{
    let week = report.weeks@[i];
    assert(week.wf());
    let day = week.entries@[j].date.date;
    lemma_week_start(day.number());
    lemma_date_with_number(week.start);
}


/// Keys in strictly descending order are fixed by which keys there are.
proof fn lemma_descending_keys_unique(a: Seq<Seq<char>>, b: Seq<Seq<char>>)
    requires
        forall|i: int, j: int| 0 <= i < j < a.len() ==> text_lt(#[trigger] a[j], #[trigger] a[i]),
        forall|i: int, j: int| 0 <= i < j < b.len() ==> text_lt(#[trigger] b[j], #[trigger] b[i]),
        forall|c: Seq<char>| a.contains(c) <==> b.contains(c),
    ensures
        a == b,
    decreases a.len(),
{
    if a.len() == 0 {
        if b.len() > 0 {
            assert(b.contains(b[0]));
        }
        assert(a =~= b);
    } else {
        assert(a.contains(a[0]));
        assert(b.len() > 0);
        assert(b.contains(b[0]));
        if a[0] != b[0] {
            let k = choose|k: int| 0 <= k < a.len() && a[k] == b[0];
            let m = choose|m: int| 0 <= m < b.len() && b[m] == a[0];
            assert(text_lt(a[k], a[0]));
            assert(text_lt(b[m], b[0]));
            lemma_text_lt_order(a[0], b[0], a[0]);
        }
        let a2 = a.drop_first();
        let b2 = b.drop_first();
        assert forall|c: Seq<char>| a2.contains(c) <==> b2.contains(c) by {
            lemma_text_lt_order(c, c, c);
            if a2.contains(c) {
                let j = choose|j: int| 0 <= j < a2.len() && a2[j] == c;
                assert(a[j + 1] == c);
                assert(text_lt(a[j + 1], a[0]));
                assert(b.contains(c));
                let n = choose|n: int| 0 <= n < b.len() && b[n] == c;
                assert(n != 0);
                assert(b2[n - 1] == c);
            }
            if b2.contains(c) {
                let j = choose|j: int| 0 <= j < b2.len() && b2[j] == c;
                assert(b[j + 1] == c);
                assert(text_lt(b[j + 1], b[0]));
                assert(a.contains(c));
                let n = choose|n: int| 0 <= n < a.len() && a[n] == c;
                assert(n != 0);
                assert(a2[n - 1] == c);
            }
        }
        lemma_descending_keys_unique(a2, b2);
        assert(a =~= b) by {
            assert forall|i: int| 0 <= i < a.len() implies a[i] == b[i] by {
                if i > 0 {
                    assert(a[i] == a2[i - 1]);
                    assert(b[i] == b2[i - 1]);
                }
            }
        }
    }
}

proof fn lemma_weeks_text_eq(a: Seq<WeekGroup>, b: Seq<WeekGroup>)
    requires
        a.len() == b.len(),
        forall|i: int|
            0 <= i < a.len() ==> (#[trigger] a[i]).start == b[i].start && a[i].entries@
                == b[i].entries@,
    ensures
        weeks_text(a) == weeks_text(b),
    decreases a.len(),
{
    if a.len() > 0 {
        assert(a[0].start == b[0].start);
        lemma_weeks_text_eq(a.drop_first(), b.drop_first());
        assert(week_text(a[0]) == week_text(b[0]));
    }
}

/// Two well-formed reports with the same week map hold the same weeks in the
/// same order (same keys, Mondays and activity), whatever order the activity
/// was added in, and so render the same Markdown for the same stamp.
pub proof fn lemma_same_map_same_text(
    r1: ActivityReport,
    r2: ActivityReport,
    generated_on: Seq<char>,
)
    requires
        r1.wf(),
        r2.wf(),
        r1.week_map() == r2.week_map(),
    ensures
        r1.weeks.len() == r2.weeks.len(),
        forall|i: int|
            0 <= i < r1.weeks.len() ==> (#[trigger] r1.weeks@[i]).key@ == r2.weeks@[i].key@
                && r1.weeks@[i].start == r2.weeks@[i].start && r1.weeks@[i].entries@
                == r2.weeks@[i].entries@,
        report_text(r1.weeks@, generated_on) == report_text(r2.weeks@, generated_on),
{
    let k1 = r1.weeks@.map_values(|w: WeekGroup| w.key@);
    let k2 = r2.weeks@.map_values(|w: WeekGroup| w.key@);
    assert forall|c: Seq<char>| k1.contains(c) <==> k2.contains(c) by {
        assert(r1.week_map().dom().contains(c) == r1.has_week(c));
        assert(r2.week_map().dom().contains(c) == r2.has_week(c));
        if k1.contains(c) {
            let j = choose|j: int| 0 <= j < k1.len() && k1[j] == c;
            assert(r1.weeks@[j].key@ == c);
            assert(r1.has_week(c));
            let n = choose|n: int| 0 <= n < r2.weeks.len() && (#[trigger] r2.weeks@[n]).key@ == c;
            assert(k2[n] == c);
        }
        if k2.contains(c) {
            let j = choose|j: int| 0 <= j < k2.len() && k2[j] == c;
            assert(r2.weeks@[j].key@ == c);
            assert(r2.has_week(c));
            let n = choose|n: int| 0 <= n < r1.weeks.len() && (#[trigger] r1.weeks@[n]).key@ == c;
            assert(k1[n] == c);
        }
    }
    assert forall|i: int, j: int| 0 <= i < j < k1.len() implies text_lt(#[trigger] k1[j], #[trigger] k1[i]) by {
        assert(text_lt(r1.weeks@[j].key@, r1.weeks@[i].key@));
    }
    assert forall|i: int, j: int| 0 <= i < j < k2.len() implies text_lt(#[trigger] k2[j], #[trigger] k2[i]) by {
        assert(text_lt(r2.weeks@[j].key@, r2.weeks@[i].key@));
    }
    lemma_descending_keys_unique(k1, k2);
    assert forall|i: int| 0 <= i < r1.weeks.len() implies (#[trigger] r1.weeks@[i]).key@
        == r2.weeks@[i].key@ && r1.weeks@[i].start == r2.weeks@[i].start
        && r1.weeks@[i].entries@ == r2.weeks@[i].entries@ by {
        assert(k1[i] == k2[i]);
        let k = r1.weeks@[i].key@;
        r1.lemma_week_entries(i);
        r2.lemma_week_entries(i);
        assert(r1.has_week(k));
        assert(r2.has_week(k));
        assert(r1.week_map()[k] == r1.week_entries(k));
        assert(r2.week_map()[k] == r2.week_entries(k));
        assert(r1.weeks@[i].wf());
        assert(r2.weeks@[i].wf());
        lemma_date_text_injective(r1.weeks@[i].start, r2.weeks@[i].start);
    }
    lemma_weeks_text_eq(r1.weeks@, r2.weeks@);
}


/// Showing the changed files of two lists one after the other is showing
/// their concatenation: every file is shown, in order, none dropped or repeated.
pub proof fn lemma_diffs_text_concat(a: Seq<DiffEntry>, b: Seq<DiffEntry>)
    ensures
        diffs_text(a + b) == diffs_text(a) + diffs_text(b),
    decreases a.len(),
{
    if a.len() == 0 {
        assert(a + b =~= b);
        assert(diffs_text(a) + diffs_text(b) =~= diffs_text(b));
    } else {
        assert((a + b).drop_first() =~= a.drop_first() + b);
        assert((a + b)[0] == a[0]);
        lemma_diffs_text_concat(a.drop_first(), b);
        assert(diffs_text(a + b) =~= diffs_text(a) + diffs_text(b));
    }
}

/// One changed file is shown as that file's block.
pub proof fn lemma_diffs_text_single(d: DiffEntry)
    ensures
        diffs_text(seq![d]) == diff_text(d),
{
    assert(seq![d].drop_first() =~= Seq::<DiffEntry>::empty());
    assert(seq![d][0] == d);
    assert(diffs_text(Seq::<DiffEntry>::empty()) =~= Seq::<char>::empty());
    assert(diffs_text(seq![d]) == diff_text(d) + diffs_text(seq![d].drop_first()));
    assert(diff_text(d) + Seq::<char>::empty() =~= diff_text(d));
}

/// The Markdown of an activity with changed files shows the block of every one
/// of them: the `i`-th file's block comes right after the blocks of the files
/// before it, inside the folded "Code Changes" section.
pub proof fn lemma_entry_shows_every_diff(e: ActivityEntry, i: int)
    requires
        0 <= i < e.diffs.len(),
    ensures
        exists|pre: Seq<char>, post: Seq<char>|
            entry_text(e) == pre + "<details>\n<summary>Code Changes</summary>\n\n"@
                + diffs_text(e.diffs@.take(i)) + diff_text(e.diffs@[i]) + post,
{
    let ds = e.diffs@;
    assert(ds =~= ds.take(i) + (seq![ds[i]] + ds.skip(i + 1)));
    lemma_diffs_text_concat(ds.take(i), seq![ds[i]] + ds.skip(i + 1));
    lemma_diffs_text_concat(seq![ds[i]], ds.skip(i + 1));
    lemma_diffs_text_single(ds[i]);
    let pre = "#### "@ + e.action@ + " - ["@ + e.project_name@ + "]("@ + e.project_url@
        + ")\n\n"@ + e.details@ + "\n\n"@;
    let post = diffs_text(ds.skip(i + 1)) + "</details>\n\n"@ + "---\n\n"@;
    assert(entry_text(e) =~= pre + "<details>\n<summary>Code Changes</summary>\n\n"@
        + diffs_text(ds.take(i)) + diff_text(ds[i]) + post);
}

} // verus!
