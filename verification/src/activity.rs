//! The activity feed: task transitions and file events merged newest first
//! (a stable order: events with the same time keep their order), then cut
//! into pages, and how many pages there are.

use vstd::prelude::*;
use crate::dashboard::{ActivityEvent, ActivityEventType};
use crate::text::{string_of, u64_to_dec, dec_nat};

verus! {

/// The position at which an event with time `t` goes into a newest-first
/// list: after every event at least as new.
pub open spec fn insert_pos(s: Seq<ActivityEvent>, t: i64) -> int
    decreases s.len(),
{
    if s.len() == 0 {
        0
    } else if s[0].timestamp < t {
        0
    } else {
        1 + insert_pos(s.drop_first(), t)
    }
}

/// The events in newest-first order, each inserted after the events at
/// least as new (so events with the same time keep their order).
pub open spec fn newest_first(s: Seq<ActivityEvent>) -> Seq<ActivityEvent>
    decreases s.len(),
{
    if s.len() == 0 {
        Seq::empty()
    } else {
        let pre = newest_first(s.drop_last());
        pre.insert(insert_pos(pre, s.last().timestamp), s.last())
    }
}

/// The events are in newest-first order.
pub open spec fn is_newest_first(s: Seq<ActivityEvent>) -> bool {
    forall|i: int, j: int| 0 <= i < j < s.len() ==> s[i].timestamp >= s[j].timestamp
}

/// In a newest-first list, the insert position of `t` comes after the
/// events at least as new and before the older ones.
proof fn lemma_insert_pos(s: Seq<ActivityEvent>, t: i64, k: int)
    requires
        0 <= k <= s.len(),
        forall|j: int| 0 <= j < k ==> s[j].timestamp >= t,
        k == s.len() || s[k].timestamp < t,
    ensures
        insert_pos(s, t) == k,
    decreases s.len(),
{
    if s.len() > 0 && k > 0 {
        let d = s.drop_first();
        assert forall|j: int| 0 <= j < k - 1 implies d[j].timestamp >= t by {
            assert(d[j] == s[j + 1]);
        }
        if k < s.len() {
            assert(d[k - 1] == s[k]);
        }
        lemma_insert_pos(d, t, k - 1);
    }
}

/// The bounds of the insert position, and the order around it.
proof fn lemma_insert_pos_bounds(s: Seq<ActivityEvent>, t: i64)
    requires
        is_newest_first(s),
    ensures
        0 <= insert_pos(s, t) <= s.len(),
        forall|j: int| 0 <= j < insert_pos(s, t) ==> s[j].timestamp >= t,
        forall|j: int| insert_pos(s, t) <= j < s.len() ==> s[j].timestamp < t,
    decreases s.len(),
{
    if s.len() > 0 && s[0].timestamp >= t {
        let d = s.drop_first();
        assert(is_newest_first(d)) by {
            assert forall|i: int, j: int| 0 <= i < j < d.len() implies d[i].timestamp >= d[j].timestamp by {
                assert(d[i] == s[i + 1] && d[j] == s[j + 1]);
            }
        }
        lemma_insert_pos_bounds(d, t);
        assert forall|j: int| 0 <= j < insert_pos(s, t) implies s[j].timestamp >= t by {
            if j > 0 {
                assert(s[j] == d[j - 1]);
            }
        }
        assert forall|j: int| insert_pos(s, t) <= j < s.len() implies s[j].timestamp < t by {
            assert(s[j] == d[j - 1]);
        }
    } else if s.len() > 0 {
        assert forall|j: int| 0 <= j < s.len() implies s[j].timestamp < t by {
            if j > 0 {
                assert(s[0].timestamp >= s[j].timestamp);
            }
        }
    }
}

/// The merged feed is newest first and holds the same events.
pub proof fn lemma_newest_first(s: Seq<ActivityEvent>)
    ensures
        is_newest_first(newest_first(s)),
        newest_first(s).to_multiset() == s.to_multiset(),
    decreases s.len(),
{
    if s.len() > 0 {
        let pre = newest_first(s.drop_last());
        lemma_newest_first(s.drop_last());
        let e = s.last();
        let k = insert_pos(pre, e.timestamp);
        lemma_insert_pos_bounds(pre, e.timestamp);
        let r = pre.insert(k, e);
        assert forall|i: int, j: int| 0 <= i < j < r.len() implies r[i].timestamp >= r[j].timestamp by {
            if j < k {
                assert(r[i] == pre[i] && r[j] == pre[j]);
            } else if j == k {
                assert(r[i] == pre[i]);
            } else if i < k {
                assert(r[i] == pre[i] && r[j] == pre[j - 1]);
            } else if i == k {
                assert(r[j] == pre[j - 1]);
            } else {
                assert(r[i] == pre[i - 1] && r[j] == pre[j - 1]);
            }
        }
        vstd::seq_lib::to_multiset_insert(pre, k, e);
        assert(r.to_multiset() == pre.to_multiset().insert(e));
        assert(s =~= s.drop_last().push(e));
        vstd::seq_lib::to_multiset_build(s.drop_last(), e);
        assert(s.to_multiset() == s.drop_last().to_multiset().insert(e));
        assert(newest_first(s) == r);
    } else {
        assert(s =~= newest_first(s));
    }
}

/// A copy of an event.
fn copy_event(e: &ActivityEvent) -> (r: ActivityEvent)
    ensures
        r == *e,
{
    ActivityEvent {
        id: e.id,
        event_type: e.event_type,
        timestamp: e.timestamp,
        worker_id: copy_opt(&e.worker_id),
        task_id: copy_opt(&e.task_id),
        file_path: copy_opt(&e.file_path),
        from_status: copy_opt(&e.from_status),
        to_status: copy_opt(&e.to_status),
        reason: copy_opt(&e.reason),
    }
}

/// A copy of an optional string.
fn copy_opt(o: &Option<String>) -> (r: Option<String>)
    ensures
        r == *o,
{
    match o {
        Some(s) => Some(s.clone()),
        None => None,
    }
}

/// The events newest first, stably (see `newest_first`).
pub fn sort_newest_first(events: &Vec<ActivityEvent>) -> (r: Vec<ActivityEvent>)
    ensures
        r@ == newest_first(events@),
{
    let mut out: Vec<ActivityEvent> = Vec::new();
    let mut i: usize = 0;
    while i < events.len()
        invariant
            i <= events@.len(),
            out@ == newest_first(events@.take(i as int)),
        decreases events@.len() - i,
    {
        proof {
            assert(events@.take(i + 1).drop_last() =~= events@.take(i as int));
            assert(events@.take(i + 1).last() == events@[i as int]);
            lemma_newest_first(events@.take(i as int));
        }
        let t = events[i].timestamp;
        let mut k: usize = 0;
        while k < out.len() && out[k].timestamp >= t
            invariant
                k <= out@.len(),
                forall|j: int| 0 <= j < k ==> out@[j].timestamp >= t,
            decreases out@.len() - k,
        {
            k = k + 1;
        }
        proof {
            lemma_insert_pos(out@, t, k as int);
        }
        out.insert(k, copy_event(&events[i]));
        i = i + 1;
    }
    proof {
        assert(events@.take(events@.len() as int) =~= events@);
    }
    out
}

/// The events of a page: skip `(page - 1) * limit` events and take `limit`;
/// a negative offset is past every event, and a negative limit takes all
/// the rest.
pub open spec fn page_of(s: Seq<ActivityEvent>, page: i32, limit: i32) -> Seq<ActivityEvent> {
    let offset = (page - 1) * limit;
    if offset < 0 || offset >= s.len() {
        Seq::empty()
    } else {
        let rest = s.skip(offset);
        if limit < 0 || limit >= rest.len() {
            rest
        } else {
            rest.take(limit as int)
        }
    }
}

/// The events of one page (see `page_of`).
pub fn page_slice(events: &Vec<ActivityEvent>, page: i32, limit: i32) -> (r: Vec<ActivityEvent>)
    requires
        page > i32::MIN,
        i32::MIN <= (page - 1) * limit <= i32::MAX,
    ensures
        r@ == page_of(events@, page, limit),
{
    let offset: i32 = (page - 1) * limit;
    let mut out: Vec<ActivityEvent> = Vec::new();
    if offset < 0 || offset as usize >= events.len() {
        return out;
    }
    let start: usize = offset as usize;
    let end: usize = if limit < 0 || limit as usize >= events.len() - start {
        events.len()
    } else {
        start + limit as usize
    };
    let mut i: usize = start;
    while i < end
        invariant
            start <= i <= end <= events@.len(),
            out@ == events@.subrange(start as int, i as int),
        decreases end - i,
    {
        out.push(copy_event(&events[i]));
        proof {
            assert(out@ =~= events@.subrange(start as int, i + 1));
        }
        i = i + 1;
    }
    proof {
        let rest = events@.skip(offset as int);
        if limit < 0 || limit >= rest.len() {
            assert(out@ =~= rest);
        } else {
            assert(out@ =~= rest.take(limit as int));
        }
    }
    out
}

/// Which logs an activity query reads.
#[derive(Debug, Clone, Copy, PartialEq, Eq, Structural)]
pub struct ActivitySources {
    /// Task transitions are read.
    pub transitions: bool,
    /// File events are counted.
    pub count_files: bool,
    /// File events are listed (only when no task filter is given).
    pub list_files: bool,
}

/// A filter that is given and not empty.
pub open spec fn given(f: Option<&str>) -> bool {
    f matches Some(x) && x@.len() > 0
}

/// The logs a query reads: transitions unless only file events are asked
/// for; file events unless only transitions are asked for or a status
/// filter is given (a status filter, even empty, leaves file events out);
/// file events are listed only without a task filter.
pub fn activity_sources(event_type: Option<&str>, status: Option<&str>, task: Option<&str>) -> (r: ActivitySources)
    ensures
        r.transitions == (event_type is None || (event_type matches Some(t) && t@ == "transition"@)),
        r.count_files == ((event_type is None || (event_type matches Some(t) && t@ == "file"@)) && status is None),
        r.list_files == (r.count_files && !given(task)),
{
    let transitions = match event_type {
        None => true,
        Some(t) => crate::text::str_eq(t, "transition"),
    };
    let files = match event_type {
        None => true,
        Some(t) => crate::text::str_eq(t, "file"),
    };
    let count_files = files && status.is_none();
    let task_given = match task {
        Some(t) => !t.is_empty(),
        None => false,
    };
    ActivitySources { transitions, count_files, list_files: count_files && !task_given }
}

/// The offset that keeps file event IDs apart from transition IDs.
pub const FILE_EVENT_ID_OFFSET: i64 = 1_000_000_000;

/// A file claim log entry as a feed event: a claim for `claimed`, else a
/// release; its ID is moved past the transition IDs.
pub fn file_event(id: i64, file_path: String, worker_id: String, event: &str, reason: Option<String>, timestamp: i64) -> (r:
    ActivityEvent)
    requires
        id + FILE_EVENT_ID_OFFSET <= i64::MAX,
    ensures
        r.id == id + FILE_EVENT_ID_OFFSET,
        r.event_type == (if event@ == "claimed"@ {
            ActivityEventType::FileClaim
        } else {
            ActivityEventType::FileRelease
        }),
        r.timestamp == timestamp,
        r.worker_id == Some(worker_id),
        r.task_id is None,
        r.file_path == Some(file_path),
        r.from_status is None,
        r.to_status is None,
        r.reason == reason,
{
    let event_type = if crate::text::str_eq(event, "claimed") {
        ActivityEventType::FileClaim
    } else {
        ActivityEventType::FileRelease
    };
    ActivityEvent {
        id: id + FILE_EVENT_ID_OFFSET,
        event_type,
        timestamp,
        worker_id: Some(worker_id),
        task_id: None,
        file_path: Some(file_path),
        from_status: None,
        to_status: None,
        reason,
    }
}

/// The conditions a transition query adds, each given filter with the next
/// parameter number: the status and worker must match, and the task ID must
/// contain the task filter.
pub open spec fn transition_filter_sql(status: Option<&str>, worker: Option<&str>, task: Option<&str>) -> Seq<char> {
    let n1: nat = 1;
    let s1 = if given(status) { " AND status = ?"@ + dec_nat(n1) } else { Seq::empty() };
    let n2: nat = if given(status) { 2 } else { 1 };
    let s2 = if given(worker) { " AND worker_id = ?"@ + dec_nat(n2) } else { Seq::empty() };
    let n3: nat = if given(worker) { n2 + 1 } else { n2 };
    let s3 = if given(task) { " AND task_id LIKE '%' || ?"@ + dec_nat(n3) + " || '%'"@ } else { Seq::empty() };
    s1 + s2 + s3
}

/// The parameters of the transition filters, in order.
pub open spec fn transition_filter_params(status: Option<&str>, worker: Option<&str>, task: Option<&str>) -> Seq<Seq<char>> {
    let p1 = if given(status) { seq![status->0@] } else { Seq::empty() };
    let p2 = if given(worker) { seq![worker->0@] } else { Seq::empty() };
    let p3 = if given(task) { seq![task->0@] } else { Seq::empty() };
    p1 + p2 + p3
}

/// The conditions and parameters a transition query adds for the given
/// filters (see `transition_filter_sql`).
pub fn transition_filters(status: Option<&str>, worker: Option<&str>, task: Option<&str>) -> (r: (String, Vec<String>))
    ensures
        r.0@ == transition_filter_sql(status, worker, task),
        crate::text::views(r.1@) == transition_filter_params(status, worker, task),
{
    let mut sql = string_of("");
    let mut params: Vec<String> = Vec::new();
    let mut n: u64 = 1;
    proof {
        reveal_strlit("");
    }
    let ghost s1: Seq<char>;
    let ghost p1: Seq<Seq<char>>;
    match status {
        Some(x) => {
            if !x.is_empty() {
                sql.append(" AND status = ?");
                sql.append(u64_to_dec(n).as_str());
                params.push(string_of(x));
                n = n + 1;
            }
        },
        None => {},
    }
    proof {
        s1 = sql@;
        p1 = crate::text::views(params@);
        assert(p1 =~= (if given(status) { seq![status->0@] } else { Seq::<Seq<char>>::empty() }));
    }
    let ghost n2 = n;
    match worker {
        Some(x) => {
            if !x.is_empty() {
                sql.append(" AND worker_id = ?");
                sql.append(u64_to_dec(n).as_str());
                params.push(string_of(x));
                n = n + 1;
            }
        },
        None => {},
    }
    let ghost s2 = sql@.skip(s1.len() as int);
    proof {
        assert(sql@ =~= s1 + s2);
        assert(crate::text::views(params@) =~= p1 + (if given(worker) { seq![worker->0@] } else { Seq::<Seq<char>>::empty() }));
    }
    let ghost before = sql@;
    let ghost pb = crate::text::views(params@);
    match task {
        Some(x) => {
            if !x.is_empty() {
                sql.append(" AND task_id LIKE '%' || ?");
                sql.append(u64_to_dec(n).as_str());
                sql.append(" || '%'");
                params.push(string_of(x));
            }
        },
        None => {},
    }
    proof {
        assert(sql@ =~= before + (if given(task) {
            " AND task_id LIKE '%' || ?"@ + dec_nat(n as nat) + " || '%'"@
        } else {
            Seq::<char>::empty()
        }));
        assert(crate::text::views(params@) =~= pb + (if given(task) { seq![task->0@] } else { Seq::<Seq<char>>::empty() }));
    }
    (sql, params)
}

/// The largest count whose division by the page size is exact in double
/// precision, as the page count is computed.
pub const EXACT_COUNT_LIMIT: i64 = 9007199254740992;

/// How many pages of `limit` events `total` events fill: the quotient
/// rounded up, for a negative page size the quotient of the magnitudes
/// negated; an empty feed with a page size of zero has no pages and any
/// other feed with that page size has as many as can be counted.
pub open spec fn page_count(total: int, limit: int) -> int {
    if limit > 0 {
        (total + limit - 1) / limit
    } else if limit == 0 {
        if total == 0 { 0 } else { i32::MAX as int }
    } else {
        -(total / (-limit))
    }
}

/// The page count brought into the range of `i32`, and at least one page.
pub open spec fn activity_pages(total: int, limit: int) -> int {
    let c = page_count(total, limit);
    let s = if c > i32::MAX { i32::MAX as int } else if c < i32::MIN { i32::MIN as int } else { c };
    if s < 1 { 1 } else { s }
}

/// The total number of pages of the activity feed: `total` events in pages
/// of `limit`, at least one (see `activity_pages`).
pub fn activity_total_pages(total: i64, limit: i32) -> (r: i32)
    requires
        0 <= total <= EXACT_COUNT_LIMIT,
    ensures
        r == activity_pages(total as int, limit as int),
{
    let c: i64 = if limit > 0 {
        let l = limit as i64;
        total / l + if total % l != 0 { 1i64 } else { 0i64 }
    } else if limit == 0 {
        if total == 0 { 0 } else { i32::MAX as i64 }
    } else {
        0 - total / (0 - (limit as i64))
    };
    proof {
        if limit > 0 {
            let l = limit as int;
            let t = total as int;
            assert((t + l - 1) / l == t / l + if t % l != 0 { 1int } else { 0int }) by (nonlinear_arith)
                requires l > 0, t >= 0;
        }
    }
    let s: i32 = if c > i32::MAX as i64 {
        i32::MAX
    } else if c < i32::MIN as i64 {
        i32::MIN
    } else {
        c as i32
    };
    if s < 1 { 1 } else { s }
}

/// One page of the activity feed: the task transitions and the file events
/// (each list as read, unpaged) merged newest first, then the page's
/// events, with the number of pages for `total` events.
pub fn activity_page(
    transitions: Vec<ActivityEvent>,
    files: Vec<ActivityEvent>,
    total: i64,
    page: i32,
    limit: i32,
) -> (r: (Vec<ActivityEvent>, i32))
    requires
        page > i32::MIN,
        i32::MIN <= (page - 1) * limit <= i32::MAX,
        0 <= total <= EXACT_COUNT_LIMIT,
    ensures
        r.0@ == page_of(newest_first(transitions@ + files@), page, limit),
        r.1 == activity_pages(total as int, limit as int),
{
    let mut events = transitions;
    let mut rest = files;
    events.append(&mut rest);
    let sorted = sort_newest_first(&events);
    (page_slice(&sorted, page, limit), activity_total_pages(total, limit))
}

} // verus!
