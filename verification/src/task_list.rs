//! The dashboard's task list query: the filter conditions and parameters
//! built from the query, the tag list parsed from a comma-separated string,
//! and the page window.

use vstd::prelude::*;
use vstd::string::StrSliceExecFns;
use crate::dashboard::TaskListQuery;
use crate::text::{dec_nat, join, views, lemma_views_push, string_of, u64_to_dec, i64_to_dec, dec_int};

verus! {

/// The character has the Unicode `White_Space` property (what
/// `char::is_whitespace` tests).
pub open spec fn white_space(c: char) -> bool {
    let u = c as u32;
    ||| 0x9 <= u <= 0xD
    ||| u == 0x20
    ||| u == 0x85
    ||| u == 0xA0
    ||| u == 0x1680
    ||| 0x2000 <= u <= 0x200A
    ||| u == 0x2028
    ||| u == 0x2029
    ||| u == 0x202F
    ||| u == 0x205F
    ||| u == 0x3000
}

/// Whether the character is white space (see `white_space`).
pub fn is_white_space(c: char) -> (r: bool)
    ensures
        r == white_space(c),
{
    let u = c as u32;
    (0x9 <= u && u <= 0xD) || u == 0x20 || u == 0x85 || u == 0xA0 || u == 0x1680 || (0x2000 <= u && u <= 0x200A)
        || u == 0x2028 || u == 0x2029 || u == 0x202F || u == 0x205F || u == 0x3000
}

/// The text without its leading white space.
pub open spec fn trim_start(s: Seq<char>) -> Seq<char>
    decreases s.len(),
{
    if s.len() > 0 && white_space(s[0]) {
        trim_start(s.drop_first())
    } else {
        s
    }
}

/// The text without its trailing white space.
pub open spec fn trim_end(s: Seq<char>) -> Seq<char>
    decreases s.len(),
{
    if s.len() > 0 && white_space(s.last()) {
        trim_end(s.drop_last())
    } else {
        s
    }
}

/// The text without leading and trailing white space.
pub open spec fn trim_ws(s: Seq<char>) -> Seq<char> {
    trim_end(trim_start(s))
}

/// The pieces of the text between the separators (one more piece than
/// separators; pieces may be empty).
pub open spec fn split_on(s: Seq<char>, sep: char) -> Seq<Seq<char>>
    decreases s.len(),
{
    if s.len() == 0 {
        seq![Seq::empty()]
    } else {
        let pre = split_on(s.drop_last(), sep);
        if s.last() == sep {
            pre.push(Seq::empty())
        } else {
            pre.update(pre.len() - 1, pre.last().push(s.last()))
        }
    }
}

/// The pieces trimmed, without the empty ones.
pub open spec fn kept(ps: Seq<Seq<char>>) -> Seq<Seq<char>>
    decreases ps.len(),
{
    if ps.len() == 0 {
        Seq::empty()
    } else {
        let pre = kept(ps.drop_last());
        let t = trim_ws(ps.last());
        if t.len() > 0 {
            pre.push(t)
        } else {
            pre
        }
    }
}

/// The tags of a comma-separated list, trimmed, without empty ones.
pub open spec fn tag_list_of(s: Seq<char>) -> Seq<Seq<char>> {
    kept(split_on(s, ','))
}

proof fn lemma_split_nonempty(s: Seq<char>, sep: char)
    ensures
        split_on(s, sep).len() >= 1,
    decreases s.len(),
{
    if s.len() > 0 {
        lemma_split_nonempty(s.drop_last(), sep);
    }
}

/// The text trimmed (see `trim_ws`).
fn trim_text(p: &str) -> (r: String)
    ensures
        r@ == trim_ws(p@),
{
    let n = p.unicode_len();
    proof {
        assert(p@.subrange(0, n as int) =~= p@);
    }
    let mut a: usize = 0;
    while a < n && is_white_space(p.get_char(a))
        invariant
            a <= n,
            n == p@.len(),
            trim_start(p@) == trim_start(p@.subrange(a as int, n as int)),
        decreases n - a,
    {
        proof {
            assert(p@.subrange(a as int, n as int).drop_first() =~= p@.subrange(a + 1, n as int));
        }
        a = a + 1;
    }
    let ghost t1 = p@.subrange(a as int, n as int);
    assert(trim_start(p@) == t1);
    let mut b: usize = n;
    while b > a && is_white_space(p.get_char(b - 1))
        invariant
            a <= b <= n,
            n == p@.len(),
            trim_end(t1) == trim_end(p@.subrange(a as int, b as int)),
        decreases b - a,
    {
        proof {
            assert(p@.subrange(a as int, b as int).drop_last() =~= p@.subrange(a as int, b - 1));
        }
        b = b - 1;
    }
    string_of(p.substring_char(a, b))
}

/// Appends the trimmed piece unless it is empty.
fn push_trimmed(out: &mut Vec<String>, piece: &str)
    ensures
        views(final(out)@) == (if trim_ws(piece@).len() > 0 {
            views(old(out)@).push(trim_ws(piece@))
        } else {
            views(old(out)@)
        }),
{
    let t = trim_text(piece);
    if t.as_str().unicode_len() > 0 {
        proof {
            lemma_views_push(out@, t);
        }
        out.push(t);
    }
}

/// The tags of a comma-separated list (see `tag_list_of`).
pub fn tag_list(tags: &str) -> (r: Vec<String>)
    ensures
        views(r@) == tag_list_of(tags@),
{
    let n = tags.unicode_len();
    let mut out: Vec<String> = Vec::new();
    let ghost mut done: Seq<Seq<char>> = Seq::empty();
    let mut start: usize = 0;
    let mut i: usize = 0;
    proof {
        assert(views(out@) =~= kept(done));
        assert(tags@.subrange(0, 0) =~= Seq::<char>::empty());
        assert(tags@.take(0) =~= Seq::<char>::empty());
        assert(split_on(tags@.take(0), ',') =~= done.push(tags@.subrange(0, 0)));
    }
    while i < n
        invariant
            start <= i <= n,
            n == tags@.len(),
            split_on(tags@.take(i as int), ',') == done.push(tags@.subrange(start as int, i as int)),
            views(out@) == kept(done),
        decreases n - i,
    {
        let c = tags.get_char(i);
        proof {
            assert(tags@.take(i + 1).drop_last() =~= tags@.take(i as int));
            assert(tags@.take(i + 1).last() == c);
        }
        if c == ',' {
            let piece = tags.substring_char(start, i);
            push_trimmed(&mut out, piece);
            proof {
                let nd = done.push(tags@.subrange(start as int, i as int));
                assert(nd.drop_last() =~= done);
                assert(views(out@) == kept(nd));
                done = nd;
                assert(tags@.subrange(i + 1, i + 1) =~= Seq::<char>::empty());
                assert(split_on(tags@.take(i + 1), ',') =~= done.push(tags@.subrange(i + 1, i + 1)));
            }
            start = i + 1;
        } else {
            proof {
                let pre = split_on(tags@.take(i as int), ',');
                assert(pre.len() - 1 == done.len());
                assert(tags@.subrange(start as int, i as int).push(c) =~= tags@.subrange(start as int, i + 1));
                assert(split_on(tags@.take(i + 1), ',') =~= done.push(tags@.subrange(start as int, i + 1)));
            }
        }
        i = i + 1;
    }
    let last = tags.substring_char(start, n);
    push_trimmed(&mut out, last);
    proof {
        assert(tags@.take(n as int) =~= tags@);
        let all = done.push(tags@.subrange(start as int, n as int));
        assert(all.drop_last() =~= done);
    }
    out
}

/// The filter is given and not empty.
pub open spec fn given(o: Option<String>) -> bool {
    o matches Some(x) && x@.len() > 0
}

/// One more than `n` when the filter is given.
pub open spec fn after(o: Option<String>, n: nat) -> nat {
    if given(o) { n + 1 } else { n }
}

/// The condition a given filter adds with parameter number `n`.
pub open spec fn condition(o: Option<String>, head: Seq<char>, n: nat, tail: Seq<char>) -> Seq<char> {
    if given(o) { head + dec_nat(n) + tail } else { Seq::empty() }
}

/// The tag conditions, parameters numbered from `n0`.
pub open spec fn tag_conditions(k: nat, n0: nat) -> Seq<Seq<char>> {
    Seq::new(k, |i: int| "t.tags LIKE '%' || ?"@ + dec_nat((n0 + i) as nat) + " || '%'"@)
}

/// The tags a query filters on.
pub open spec fn query_tags(q: TaskListQuery) -> Seq<Seq<char>> {
    if given(q.tags) { tag_list_of(q.tags->0@) } else { Seq::empty() }
}

/// The conditions of a task list query: state, owner and parent must
/// match, and the tags text must contain one of the tags; each given filter
/// takes the next parameter number.
pub open spec fn task_list_sql(q: TaskListQuery) -> Seq<char> {
    let n1: nat = 1;
    let n2 = after(q.status, n1);
    let n3 = after(q.owner, n2);
    let n4 = after(q.parent, n3);
    let tl = query_tags(q);
    condition(q.status, " AND t.status = ?"@, n1, ""@) + condition(q.owner, " AND t.worker_id = ?"@, n2, ""@)
        + condition(
        q.parent,
        " AND t.id IN (SELECT to_task_id FROM dependencies WHERE from_task_id = ?"@,
        n3,
        " AND dep_type = 'contains')"@,
    ) + (if tl.len() > 0 {
        " AND ("@ + join(tag_conditions(tl.len(), n4), " OR "@) + ")"@
    } else {
        Seq::empty()
    })
}

/// The parameter of a given filter.
pub open spec fn param(o: Option<String>) -> Seq<Seq<char>> {
    if given(o) { seq![o->0@] } else { Seq::empty() }
}

/// The parameters of a task list query, in order.
pub open spec fn task_list_params(q: TaskListQuery) -> Seq<Seq<char>> {
    param(q.status) + param(q.owner) + param(q.parent) + query_tags(q)
}

/// Appends a given filter's condition and parameter; returns the next
/// parameter number.
fn add_condition(sql: &mut String, params: &mut Vec<String>, o: &Option<String>, head: &str, n: u64, tail: &str) -> (r: u64)
    requires
        n < u64::MAX,
    ensures
        final(sql)@ == old(sql)@ + condition(*o, head@, n as nat, tail@),
        views(final(params)@) == views(old(params)@) + param(*o),
        r == after(*o, n as nat),
{
    proof {
        reveal_strlit("");
    }
    match o {
        Some(x) => {
            if x.as_str().unicode_len() > 0 {
                sql.append(head);
                sql.append(u64_to_dec(n).as_str());
                sql.append(tail);
                proof {
                    lemma_views_push(params@, *x);
                }
                params.push(x.clone());
                proof {
                    assert(views(params@) =~= views(old(params)@) + param(*o));
                }
                return n + 1;
            }
        },
        None => {},
    }
    proof {
        assert(sql@ =~= old(sql)@ + condition(*o, head@, n as nat, tail@));
        assert(views(params@) =~= views(old(params)@) + param(*o));
    }
    n
}

impl TaskListQuery {
    /// The conditions and parameters of the query's filters (see
    /// `task_list_sql` and `task_list_params`).
    pub fn filters(&self) -> (r: (String, Vec<String>))
        requires
            query_tags(*self).len() < u64::MAX - 4,
        ensures
            r.0@ == task_list_sql(*self),
            views(r.1@) == task_list_params(*self),
    {
        let mut sql = string_of("");
        let mut params: Vec<String> = Vec::new();
        proof {
            reveal_strlit("");
            assert(views(params@) =~= Seq::<Seq<char>>::empty());
        }
        let n = add_condition(&mut sql, &mut params, &self.status, " AND t.status = ?", 1, "");
        let n = add_condition(&mut sql, &mut params, &self.owner, " AND t.worker_id = ?", n, "");
        let n = add_condition(
            &mut sql,
            &mut params,
            &self.parent,
            " AND t.id IN (SELECT to_task_id FROM dependencies WHERE from_task_id = ?",
            n,
            " AND dep_type = 'contains')",
        );
        let ghost head = sql@;
        let ghost pv = views(params@);
        let tl: Vec<String> = match &self.tags {
            Some(t) => {
                if t.as_str().unicode_len() > 0 {
                    tag_list(t.as_str())
                } else {
                    Vec::new()
                }
            },
            None => Vec::new(),
        };
        proof {
            assert(views(tl@) =~= query_tags(*self));
        }
        if tl.len() > 0 {
            let mut conds: Vec<String> = Vec::new();
            let mut k: usize = 0;
            while k < tl.len()
                invariant
                    k <= tl@.len(),
                    n <= 4,
                    tl@.len() < u64::MAX - 4,
                    views(conds@) =~= tag_conditions(k as nat, n as nat),
                    views(params@) == pv + views(tl@.take(k as int)),
                decreases tl@.len() - k,
            {
                let mut c = string_of("t.tags LIKE '%' || ?");
                c.append(u64_to_dec(n + k as u64).as_str());
                c.append(" || '%'");
                proof {
                    lemma_views_push(conds@, c);
                    lemma_views_push(params@, tl@[k as int]);
                    assert(tl@.take(k + 1) =~= tl@.take(k as int).push(tl@[k as int]));
                    lemma_views_push(tl@.take(k as int), tl@[k as int]);
                }
                conds.push(c);
                params.push(tl[k].clone());
                proof {
                    assert(views(conds@) =~= tag_conditions((k + 1) as nat, n as nat));
                    assert(views(params@) =~= pv + views(tl@.take(k + 1)));
                }
                k = k + 1;
            }
            proof {
                assert(tl@.take(tl@.len() as int) =~= tl@);
            }
            sql.append(" AND (");
            sql.append(crate::text::join_strings(conds.as_slice(), " OR ").as_str());
            sql.append(")");
        } else {
            proof {
                assert(tl@.take(0) =~= tl@);
            }
        }
        proof {
            assert(views(params@) =~= task_list_params(*self));
            assert(sql@ =~= task_list_sql(*self));
        }
        (sql, params)
    }

    /// The page window: ` LIMIT {limit} OFFSET {(page - 1) * limit}`.
    pub fn limit_clause(&self) -> (r: String)
        requires
            i32::MIN < self.page,
            i32::MIN <= (self.page - 1) * self.limit <= i32::MAX,
        ensures
            r@ == " LIMIT "@ + dec_int(self.limit as int) + " OFFSET "@ + dec_int((self.page - 1) * self.limit),
    {
        let offset: i32 = (self.page - 1) * self.limit;
        let mut s = string_of(" LIMIT ");
        s.append(i64_to_dec(self.limit as i64).as_str());
        s.append(" OFFSET ");
        s.append(i64_to_dec(offset as i64).as_str());
        s
    }
}

} // verus!
