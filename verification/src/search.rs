//! Full-text search: how many matches are asked for, the matching
//! attachments, and how attachment matches join the task matches.

use vstd::prelude::*;
use crate::text::{str_eq, string_of, views, lemma_views_push};

verus! {

/// A matching attachment from full-text search.
#[derive(Debug, Clone)]
pub struct AttachmentMatch {
    /// Attachment type/category.
    pub attachment_type: String,
    /// Sequence within type.
    pub sequence: i32,
    /// Attachment name/label.
    pub name: String,
    /// Highlighted content snippet.
    pub content_snippet: String,
}

/// The largest number of task matches a search returns.
pub const MAX_SEARCH_LIMIT: i32 = 100;

/// The number of task matches asked for: the given limit, 20 by default,
/// never above 100.
pub open spec fn search_limit_of(limit: Option<i32>) -> int {
    let l = match limit {
        Some(l) => l as int,
        None => 20,
    };
    if l < MAX_SEARCH_LIMIT { l } else { MAX_SEARCH_LIMIT as int }
}

/// The limits of a search: of task matches (see `search_limit_of`), and of
/// attachment matches, three times as many.
pub fn search_limits(limit: Option<i32>) -> (r: (i32, i64))
    ensures
        r.0 == search_limit_of(limit),
        r.1 == 3 * search_limit_of(limit),
{
    let l: i32 = match limit {
        Some(l) => l,
        None => 20,
    };
    let l = if l < MAX_SEARCH_LIMIT { l } else { MAX_SEARCH_LIMIT };
    (l, 3 * (l as i64))
}

/// The position of the first of the first `n` IDs equal to `t`.
pub open spec fn first_in(ids: Seq<Seq<char>>, t: Seq<char>, n: int) -> Option<int>
    decreases n,
{
    if n <= 0 {
        None
    } else {
        match first_in(ids, t, n - 1) {
            Some(k) => Some(k),
            None => if ids[n - 1] == t { Some(n - 1) } else { None },
        }
    }
}

/// The search results' task IDs after the first `n` attachment matches
/// (the task of match `m` being `tasks[m]`) have joined them, and for each
/// of those matches the result it joined. A match joins the first result
/// for its task; when there is none yet and the task was found (`found[m]`)
/// it starts a new result at the end; otherwise it is dropped.
pub open spec fn grouped(ids: Seq<Seq<char>>, tasks: Seq<Seq<char>>, found: Seq<bool>, n: int) -> (Seq<Seq<char>>, Seq<Option<int>>)
    decreases n,
{
    if n <= 0 {
        (ids, Seq::empty())
    } else {
        let before = grouped(ids, tasks, found, n - 1);
        let t = tasks[n - 1];
        match first_in(before.0, t, before.0.len() as int) {
            Some(i) => (before.0, before.1.push(Some(i))),
            None => if found[n - 1] {
                (before.0.push(t), before.1.push(Some(before.0.len() as int)))
            } else {
                (before.0, before.1.push(None))
            },
        }
    }
}

/// The positions as integers.
pub open spec fn opt_positions(v: Seq<Option<usize>>) -> Seq<Option<int>> {
    v.map_values(|o: Option<usize>| match o {
        Some(i) => Some(i as int),
        None => None,
    })
}

/// The first of the IDs equal to `t`.
fn first_position(ids: &Vec<String>, t: &str) -> (r: Option<usize>)
    ensures
        match r {
            Some(k) => first_in(views(ids@), t@, ids@.len() as int) == Some(k as int),
            None => first_in(views(ids@), t@, ids@.len() as int) is None,
        },
{
    let ghost v = views(ids@);
    let mut i: usize = 0;
    while i < ids.len()
        invariant
            v == views(ids@),
            i <= ids@.len(),
            first_in(v, t@, i as int) is None,
        decreases ids@.len() - i,
    {
        if str_eq(ids[i].as_str(), t) {
            proof {
                assert(first_in(v, t@, i + 1) == Some(i as int));
                lemma_first_in_stays(v, t@, i + 1, ids@.len() as int);
            }
            return Some(i);
        }
        i = i + 1;
    }
    None
}

/// Once found, the first position stays the first.
proof fn lemma_first_in_stays(ids: Seq<Seq<char>>, t: Seq<char>, n: int, m: int)
    requires
        n <= m,
        first_in(ids, t, n) is Some,
    ensures
        first_in(ids, t, m) == first_in(ids, t, n),
    decreases m - n,
{
    if n < m {
        lemma_first_in_stays(ids, t, n, m - 1);
    }
}

/// Join the attachment matches to the search results: `result_ids` are
/// the task IDs of the results so far, `match_tasks[m]` the task of the
/// `m`-th attachment match, and `found[m]` whether that task exists (and
/// passes the search's status filter). Returns the task IDs of the results
/// afterwards and, for each match, the result it joined, if any (see
/// `grouped`).
pub fn group_attachment_matches(result_ids: &Vec<String>, match_tasks: &Vec<String>, found: &Vec<bool>) -> (r: (
    Vec<String>,
    Vec<Option<usize>>,
))
    requires
        found@.len() == match_tasks@.len(),
    ensures
        views(r.0@) == grouped(views(result_ids@), views(match_tasks@), found@, match_tasks@.len() as int).0,
        opt_positions(r.1@) == grouped(views(result_ids@), views(match_tasks@), found@, match_tasks@.len() as int).1,
{
    let ghost ids0 = views(result_ids@);
    let ghost ts = views(match_tasks@);
    let mut ids: Vec<String> = Vec::new();
    let mut i: usize = 0;
    while i < result_ids.len()
        invariant
            i <= result_ids@.len(),
            ids0 == views(result_ids@),
            views(ids@) == ids0.take(i as int),
        decreases result_ids@.len() - i,
    {
        let ghost before = ids@;
        ids.push(result_ids[i].clone());
        proof {
            lemma_views_push(before, ids@.last());
            assert(ids0.take(i + 1) =~= ids0.take(i as int).push(result_ids@[i as int]@));
        }
        i = i + 1;
    }
    proof {
        assert(ids0.take(result_ids@.len() as int) =~= ids0);
    }
    let mut assign: Vec<Option<usize>> = Vec::new();
    let mut m: usize = 0;
    while m < match_tasks.len()
        invariant
            m <= match_tasks@.len(),
            found@.len() == match_tasks@.len(),
            ids0 == views(result_ids@),
            ts == views(match_tasks@),
            views(ids@) == grouped(ids0, ts, found@, m as int).0,
            opt_positions(assign@) == grouped(ids0, ts, found@, m as int).1,
        decreases match_tasks@.len() - m,
    {
        let t = match_tasks[m].as_str();
        let ghost assign0 = assign@;
        let ghost ids_before = ids@;
        proof {
            assert(ts[m as int] == t@);
            assert(views(ids@).len() == ids@.len());
        }
        let ghost g = grouped(ids0, ts, found@, m as int);
        let ghost fi = first_in(g.0, t@, g.0.len() as int);
        match first_position(&ids, t) {
            Some(k) => {
                assert(fi == Some(k as int));
                assign.push(Some(k));
            },
            None => {
                assert(fi is None);
                if found[m] {
                    let k = ids.len();
                    assert(g.0.len() == k);
                    ids.push(string_of(t));
                    proof {
                        lemma_views_push(ids_before, ids@.last());
                    }
                    assign.push(Some(k));
                } else {
                    assign.push(None);
                }
            },
        }
        proof {
            let last = assign@.last();
            assert(assign@ =~= assign0.push(last));
            assert(opt_positions(assign@) =~= opt_positions(assign0).push(match last {
                Some(i) => Some(i as int),
                None => None,
            }));
            assert(views(ids_before).len() == ids_before.len());
            assert(opt_positions(assign@) =~= grouped(ids0, ts, found@, m + 1).1);
        }
        m = m + 1;
    }
    (ids, assign)
}

} // verus!
