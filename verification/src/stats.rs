//! Task counts by state for the statistics: every configured state is
//! listed, with zero where no task is in it, and every counted state with
//! its count.

use vstd::prelude::*;
use crate::text::{str_eq, views};

verus! {

/// The count held last for `name` among the first `n` entries.
pub open spec fn last_count(entries: Seq<(Seq<char>, i64)>, name: Seq<char>, n: int) -> Option<i64>
    decreases n,
{
    if n <= 0 {
        None
    } else if entries[n - 1].0 == name {
        Some(entries[n - 1].1)
    } else {
        last_count(entries, name, n - 1)
    }
}

/// The count held for `name`, if any.
pub open spec fn count_for(entries: Seq<(Seq<char>, i64)>, name: Seq<char>) -> Option<i64> {
    last_count(entries, name, entries.len() as int)
}

/// The views of the entries.
pub open spec fn entry_views(s: Seq<(String, i64)>) -> Seq<(Seq<char>, i64)> {
    s.map_values(|e: (String, i64)| (e.0@, e.1))
}

/// No state is listed twice.
pub open spec fn keys_unique(s: Seq<(Seq<char>, i64)>) -> bool {
    forall|i: int, j: int| 0 <= i < j < s.len() ==> s[i].0 != s[j].0
}

/// The count reported for state `name`: what was counted for it (the last
/// count, should it be counted twice), else zero for a configured state.
pub open spec fn status_count(states: Seq<Seq<char>>, counted: Seq<(Seq<char>, i64)>, name: Seq<char>) -> Option<i64> {
    match count_for(counted, name) {
        Some(c) => Some(c),
        None => if states.contains(name) { Some(0) } else { None },
    }
}

/// Only the first `n` entries decide `last_count` over them.
proof fn lemma_last_count_prefix(s: Seq<(Seq<char>, i64)>, t: Seq<(Seq<char>, i64)>, name: Seq<char>, n: int)
    requires
        0 <= n <= s.len(),
        n <= t.len(),
        forall|k: int| 0 <= k < n ==> s[k] == t[k],
    ensures
        last_count(s, name, n) == last_count(t, name, n),
    decreases n,
{
    if n > 0 {
        lemma_last_count_prefix(s, t, name, n - 1);
    }
}

/// With distinct names, replacing the entry of a name changes its count
/// only.
proof fn lemma_last_count_update(s: Seq<(Seq<char>, i64)>, i: int, e: (Seq<char>, i64), name: Seq<char>, n: int)
    requires
        keys_unique(s),
        0 <= i < s.len(),
        s[i].0 == e.0,
        0 <= n <= s.len(),
    ensures
        last_count(s.update(i, e), name, n) == if name == e.0 && i < n {
            Some(e.1)
        } else {
            last_count(s, name, n)
        },
    decreases n,
{
    if n > 0 {
        lemma_last_count_update(s, i, e, name, n - 1);
        if n - 1 != i && name == e.0 && i < n - 1 {
            assert(s[n - 1].0 != s[i].0);
        }
    }
}

/// Stores `c` under `name`, replacing any count stored under it.
fn upsert(out: &mut Vec<(String, i64)>, name: &String, c: i64)
    requires
        keys_unique(entry_views(old(out)@)),
    ensures
        keys_unique(entry_views(final(out)@)),
        forall|n: Seq<char>| #[trigger] count_for(entry_views(final(out)@), n)
            == if n == name@ { Some(c) } else { count_for(entry_views(old(out)@), n) },
{
    let ghost before = entry_views(out@);
    let mut i: usize = 0;
    while i < out.len()
        invariant
            i <= out@.len(),
            before == entry_views(out@),
            before == entry_views(old(out)@),
            keys_unique(before),
            forall|k: int| 0 <= k < i ==> out@[k].0@ != name@,
        decreases out@.len() - i,
    {
        if str_eq(out[i].0.as_str(), name.as_str()) {
            let ghost e = (name@, c);
            out.set(i, (name.clone(), c));
            proof {
                assert(before[i as int].0 == out@[i as int].0@);
                assert(entry_views(out@) =~= before.update(i as int, e));
                let after = entry_views(out@);
                assert forall|a: int, b: int| 0 <= a < b < after.len() implies after[a].0 != after[b].0 by {
                    assert(after[a].0 == before[a].0 && after[b].0 == before[b].0);
                }
                assert forall|n: Seq<char>| #[trigger] count_for(entry_views(out@), n)
                    == if n == name@ { Some(c) } else { count_for(before, n) } by {
                    lemma_last_count_update(before, i as int, e, n, before.len() as int);
                }
            }
            return;
        }
        i = i + 1;
    }
    out.push((name.clone(), c));
    proof {
        let after = entry_views(out@);
        assert(after =~= before.push((name@, c)));
        assert forall|n: Seq<char>| #[trigger] count_for(after, n)
            == if n == name@ { Some(c) } else { count_for(before, n) } by {
            lemma_last_count_prefix(after, before, n, before.len() as int);
        }
        assert forall|a: int, b: int| 0 <= a < b < after.len() implies after[a].0 != after[b].0 by {
            if b == before.len() {
                assert(before[a].0 == out@[a].0@);
            }
        }
    }
}

/// The number of tasks in each state: every configured state (zero where no
/// task is in it), then every counted state with its count. Each state is
/// listed once.
pub fn tasks_by_status(state_names: &Vec<String>, counted: &Vec<(String, i64)>) -> (r: Vec<(String, i64)>)
    ensures
        keys_unique(entry_views(r@)),
        forall|name: Seq<char>| #[trigger] count_for(entry_views(r@), name)
            == status_count(views(state_names@), entry_views(counted@), name),
{
    let mut out: Vec<(String, i64)> = Vec::new();
    let ghost sv = views(state_names@);
    let ghost cv = entry_views(counted@);
    let mut i: usize = 0;
    while i < state_names.len()
        invariant
            i <= state_names@.len(),
            sv == views(state_names@),
            keys_unique(entry_views(out@)),
            forall|name: Seq<char>| #[trigger] count_for(entry_views(out@), name)
                == if sv.take(i as int).contains(name) { Some(0i64) } else { None },
        decreases state_names@.len() - i,
    {
        let ghost prev = entry_views(out@);
        upsert(&mut out, &state_names[i], 0);
        proof {
            let nm = state_names@[i as int]@;
            assert(sv[i as int] == nm);
            assert(sv.take(i + 1) =~= sv.take(i as int).push(nm));
            assert forall|name: Seq<char>| #[trigger] count_for(entry_views(out@), name)
                == if sv.take(i + 1).contains(name) { Some(0i64) } else { None } by {
                if name == nm {
                    assert(sv.take(i + 1)[i as int] == name);
                } else {
                    if sv.take(i + 1).contains(name) {
                        let t = sv.take(i + 1);
                        let k = choose|k: int| 0 <= k < t.len() && t[k] == name;
                        assert(sv.take(i as int)[k] == name);
                    }
                    if sv.take(i as int).contains(name) {
                        let t = sv.take(i as int);
                        let k = choose|k: int| 0 <= k < t.len() && t[k] == name;
                        assert(sv.take(i + 1)[k] == name);
                    }
                }
            }
        }
        i = i + 1;
    }
    proof {
        assert(sv.take(state_names@.len() as int) =~= sv);
    }
    let mut j: usize = 0;
    while j < counted.len()
        invariant
            j <= counted@.len(),
            sv == views(state_names@),
            cv == entry_views(counted@),
            keys_unique(entry_views(out@)),
            forall|name: Seq<char>| #[trigger] count_for(entry_views(out@), name)
                == match last_count(cv, name, j as int) {
                    Some(c) => Some(c),
                    None => if sv.contains(name) { Some(0i64) } else { None },
                },
        decreases counted@.len() - j,
    {
        upsert(&mut out, &counted[j].0, counted[j].1);
        proof {
            assert(cv[j as int] == (counted@[j as int].0@, counted@[j as int].1));
        }
        j = j + 1;
    }
    out
}

} // verus!
