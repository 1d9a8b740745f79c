//! Differences between two snapshots: per table, the records added, removed
//! and modified, matched by primary key.
//!
//! Whether two field values count as equal is decided by a comparison that
//! the caller supplies (numbers are compared with a floating-point
//! tolerance, which this library does not compute).

use vstd::prelude::*;
use crate::json::{Json, JsonV, json_get};
use crate::export::{Snapshot, Tables, table_primary_key, get_table_primary_key};
use crate::import::table_rows;
use crate::text::{
    str_eq, string_of, join, join_strings, views, lemma_views_push, str_lt, str_less, lemma_str_lt_total,
    lemma_str_lt_trans, lemma_str_lt_irrefl,
};

verus! {

/// A single field change within a record.
#[derive(Debug, Clone)]
pub struct FieldChange {
    pub field: String,
    pub old_value: Json,
    pub new_value: Json,
}

/// A modified record showing which fields changed.
#[derive(Debug, Clone)]
pub struct ModifiedRecord {
    /// The primary key value(s) identifying this record.
    pub key: Json,
    /// List of field changes.
    pub changes: Vec<FieldChange>,
}

/// Diff results for a single table.
#[derive(Debug, Clone)]
pub struct TableDiff {
    /// Records present in target but not in source (added).
    pub added: Vec<Json>,
    /// Records present in source but not in target (removed).
    pub removed: Vec<Json>,
    /// Records present in both but with different values.
    pub modified: Vec<ModifiedRecord>,
}

impl TableDiff {
    /// A diff with no changes.
    pub fn new() -> (r: Self)
        ensures
            r.added@.len() == 0,
            r.removed@.len() == 0,
            r.modified@.len() == 0,
    {
        TableDiff { added: Vec::new(), removed: Vec::new(), modified: Vec::new() }
    }

    /// Whether there are no changes in this table.
    pub fn is_empty(&self) -> (r: bool)
        ensures
            r == (self.added@.len() == 0 && self.removed@.len() == 0 && self.modified@.len() == 0),
    {
        self.added.len() == 0 && self.removed.len() == 0 && self.modified.len() == 0
    }

    /// Total number of changes.
    pub fn change_count(&self) -> (r: usize)
        requires
            self.added@.len() + self.removed@.len() + self.modified@.len() <= usize::MAX,
        ensures
            r == self.added@.len() + self.removed@.len() + self.modified@.len(),
    {
        self.added.len() + self.removed.len() + self.modified.len()
    }
}

/// The value of a field, or null when the record has no such field.
pub open spec fn field_or_null(j: JsonV, key: Seq<char>) -> JsonV {
    match json_get(j, key) {
        Some(v) => v,
        None => JsonV::Null,
    }
}

/// The key columns as texts.
pub open spec fn column_names(cols: Seq<&str>) -> Seq<Seq<char>> {
    cols.map_values(|c: &str| c@)
}

/// The primary key of a record: the value of its only key column, or the
/// array of the values of its key columns (null for a missing column).
pub open spec fn key_of(record: JsonV, cols: Seq<Seq<char>>) -> JsonV {
    if cols.len() == 1 {
        field_or_null(record, cols[0])
    } else {
        JsonV::Array(Seq::new(cols.len(), |i: int| field_or_null(record, cols[i])))
    }
}

/// A copy of the field's value, or null.
fn field_value(record: &Json, key: &str) -> (r: Json)
    ensures
        r@ == field_or_null(record@, key@),
{
    match record.get(key) {
        Some(v) => v.clone(),
        None => Json::Null,
    }
}

/// Extract the primary key value from a record.
pub fn extract_key(record: &Json, key_columns: &[&str]) -> (r: Json)
    ensures
        r@ == key_of(record@, column_names(key_columns@)),
{
    let ghost cols = column_names(key_columns@);
    if key_columns.len() == 1 {
        return field_value(record, key_columns[0]);
    }
    let mut out: Vec<Json> = Vec::new();
    let mut i: usize = 0;
    while i < key_columns.len()
        invariant
            i <= key_columns@.len(),
            cols == column_names(key_columns@),
            out@.len() == i,
            forall|k: int| 0 <= k < i ==> (#[trigger] out@[k])@ == field_or_null(record@, cols[k]),
        decreases key_columns@.len() - i,
    {
        out.push(field_value(record, key_columns[i]));
        i = i + 1;
    }
    let r = Json::Array(out);
    proof {
        let a = r@->Array_0;
        assert forall|k: int| 0 <= k < a.len() implies a[k] == field_or_null(record@, cols[k]) by {
            assert(out@[k]@ == field_or_null(record@, cols[k]));
        }
        assert(a =~= Seq::new(cols.len(), |i: int| field_or_null(record@, cols[i])));
    }
    r
}

/// The JSON text of a value, as `serde_json` writes it.
pub uninterp spec fn json_text_of(v: JsonV) -> Seq<char>;

#[verifier::external_type_specification]
#[verifier::external_body]
pub struct ExSerdeValue(serde_json::Value);

/// The value in `serde_json`'s representation: each variant to its
/// counterpart, a number held by its text parsed by `serde_json`.
/// Nothing is stated of the result; `json_text` names its text.
#[verifier::external_body]
fn to_serde_value(j: &Json) -> serde_json::Value {
    match j {
        Json::Null => serde_json::Value::Null,
        Json::Bool(b) => serde_json::Value::Bool(*b),
        Json::Int(i) => serde_json::Value::from(*i),
        Json::Float(t) => serde_json::from_str(t).unwrap_or(serde_json::Value::Null),
        Json::Str(s) => serde_json::Value::String(s.clone()),
        Json::Array(v) => serde_json::Value::Array(v.iter().map(to_serde_value).collect()),
        Json::Object(es) => serde_json::Value::Object(es.iter().map(|(k, v)| (k.clone(), to_serde_value(v))).collect()),
    }
}

/// The JSON text of the value: `serde_json::Value::to_string` of its
/// `serde_json` form. The text is named by `json_text_of`; the serializer
/// is not restated here.
#[verifier::external_body]
pub(crate) fn json_text(j: &Json) -> (r: String)
    ensures
        r@ == json_text_of(j@),
{
    to_serde_value(j).to_string()
}

/// The text a key is matched by: the texts of the values of a composite key
/// joined by `|`, or the text of a single value.
pub open spec fn key_text(k: JsonV) -> Seq<char> {
    match k {
        JsonV::Array(a) => join(Seq::new(a.len(), |i: int| json_text_of(a[i])), "|"@),
        _ => json_text_of(k),
    }
}

/// Create a string key for lookups.
pub fn key_to_string(key: &Json) -> (r: String)
    ensures
        r@ == key_text(key@),
{
    match key {
        Json::Array(arr) => {
            let mut parts: Vec<String> = Vec::new();
            let mut i: usize = 0;
            while i < arr.len()
                invariant
                    i <= arr@.len(),
                    *key == Json::Array(*arr),
                    parts@.len() == i,
                    forall|k: int| 0 <= k < i ==> (#[trigger] parts@[k])@ == json_text_of(arr@[k]@),
                decreases arr@.len() - i,
            {
                parts.push(json_text(&arr[i]));
                i = i + 1;
            }
            proof {
                let a = key@->Array_0;
                assert(views(parts@) =~= Seq::new(a.len(), |i: int| json_text_of(a[i])));
            }
            join_strings(parts.as_slice(), "|")
        }
        _ => json_text(key),
    }
}

/// What `same` says of two values: it answered true for some two values
/// with these models.
pub open spec fn same_says<F: Fn(&Json, &Json) -> bool>(same: F, a: JsonV, b: JsonV) -> bool {
    exists|x: &Json, y: &Json| x@ == a && y@ == b && #[trigger] call_ensures(same, (x, y), true)
}

/// `same` can be asked of any two values and gives the same answer for
/// values with the same models.
pub open spec fn is_value_test<F: Fn(&Json, &Json) -> bool>(same: F) -> bool {
    &&& forall|x: &Json, y: &Json| #[trigger] call_requires(same, (x, y))
    &&& forall|x1: &Json, y1: &Json, x2: &Json, y2: &Json, r1: bool, r2: bool|
        #![trigger call_ensures(same, (x1, y1), r1), call_ensures(same, (x2, y2), r2)]
        x1@ == x2@ && y1@ == y2@ && call_ensures(same, (x1, y1), r1) && call_ensures(same, (x2, y2), r2) ==> r1 == r2
}

/// Asks `same` about two values.
fn ask_same<F: Fn(&Json, &Json) -> bool>(same: &F, a: &Json, b: &Json) -> (r: bool)
    requires
        is_value_test(*same),
    ensures
        r == same_says(*same, a@, b@),
{
    let r = same(a, b);
    proof {
        if same_says(*same, a@, b@) {
            let (x, y) = choose|x: &Json, y: &Json| x@ == a@ && y@ == b@ && #[trigger] call_ensures(*same, (x, y), true);
            assert(call_ensures(*same, (a, b), r));
        }
    }
    r
}

/// The field names of an object, in order (none for another value).
pub open spec fn object_keys(j: JsonV) -> Seq<Seq<char>> {
    match j {
        JsonV::Object(es) => es.map_values(|e: (Seq<char>, JsonV)| e.0),
        _ => Seq::empty(),
    }
}

/// The names, each once, in order of first occurrence.
pub open spec fn dedup(s: Seq<Seq<char>>) -> Seq<Seq<char>>
    decreases s.len(),
{
    if s.len() == 0 {
        Seq::empty()
    } else {
        let d = dedup(s.drop_last());
        if d.contains(s.last()) { d } else { d.push(s.last()) }
    }
}

/// The changed fields among `fields`: those that are not key columns and
/// whose values `same` does not call equal, with the old and new values.
pub open spec fn changed_fields<F: Fn(&Json, &Json) -> bool>(
    same: F,
    fields: Seq<Seq<char>>,
    src: JsonV,
    tgt: JsonV,
    cols: Seq<Seq<char>>,
) -> Seq<(Seq<char>, JsonV, JsonV)>
    decreases fields.len(),
{
    if fields.len() == 0 {
        Seq::empty()
    } else {
        let pre = changed_fields(same, fields.drop_last(), src, tgt, cols);
        let f = fields.last();
        let sv = field_or_null(src, f);
        let tv = field_or_null(tgt, f);
        if !cols.contains(f) && !same_says(same, sv, tv) { pre.push((f, sv, tv)) } else { pre }
    }
}

/// The changes between two records: over the fields of both (each once, the
/// source's first), those that changed; none unless both are objects.
pub open spec fn record_changes<F: Fn(&Json, &Json) -> bool>(same: F, src: JsonV, tgt: JsonV, cols: Seq<Seq<char>>) -> Seq<(Seq<char>, JsonV, JsonV)> {
    if src is Object && tgt is Object {
        changed_fields(same, dedup(object_keys(src) + object_keys(tgt)), src, tgt, cols)
    } else {
        Seq::empty()
    }
}

/// The models of a list of changes.
pub open spec fn changes_view(v: Seq<FieldChange>) -> Seq<(Seq<char>, JsonV, JsonV)> {
    v.map_values(|c: FieldChange| (c.field@, c.old_value@, c.new_value@))
}

/// Whether the name is one of the key columns.
fn is_key_column(key_columns: &[&str], name: &str) -> (r: bool)
    ensures
        r == column_names(key_columns@).contains(name@),
{
    let mut i: usize = 0;
    while i < key_columns.len()
        invariant
            i <= key_columns@.len(),
            forall|k: int| 0 <= k < i ==> key_columns@[k]@ != name@,
        decreases key_columns@.len() - i,
    {
        if str_eq(key_columns[i], name) {
            proof {
                assert(column_names(key_columns@)[i as int] == name@);
            }
            return true;
        }
        i = i + 1;
    }
    proof {
        if column_names(key_columns@).contains(name@) {
            let k = choose|k: int| 0 <= k < column_names(key_columns@).len() && column_names(key_columns@)[k] == name@;
            assert(key_columns@[k]@ == name@);
        }
    }
    false
}

/// Appends the field names of an object that are not listed yet.
fn add_keys(fields: &mut Vec<String>, j: &Json)
    requires
        views(old(fields)@) == dedup(views(old(fields)@)),
    ensures
        views(final(fields)@) == dedup(views(old(fields)@) + object_keys(j@)),
{
    let ghost start = views(fields@);
    match j {
        Json::Object(es) => {
            let ghost ks = object_keys(j@);
            proof {
                assert(ks.len() == es@.len());
                assert(start + ks.take(0) =~= start);
            }
            let mut i: usize = 0;
            while i < es.len()
                invariant
                    *j == Json::Object(*es),
                    i <= es@.len(),
                    ks == object_keys(j@),
                    ks.len() == es@.len(),
                    views(fields@) == dedup(start + ks.take(i as int)),
                decreases es@.len() - i,
            {
                let ghost before = fields@;
                let k = &es[i].0;
                proof {
                    assert(ks[i as int] == k@);
                    assert((start + ks.take(i + 1)).drop_last() =~= start + ks.take(i as int));
                    assert((start + ks.take(i + 1)).last() == k@);
                }
                if !crate::import::contains_string(fields, k.as_str()) {
                    fields.push(k.clone());
                    proof {
                        lemma_views_push(before, fields@.last());
                        assert(fields@ == before.push(fields@.last()));
                        assert(!views(before).contains(k@)) by {
                            if views(before).contains(k@) {
                                let w = choose|w: int| 0 <= w < views(before).len() && views(before)[w] == k@;
                                assert(before[w]@ == k@);
                            }
                        }
                    }
                } else {
                    proof {
                        let w = choose|w: int| 0 <= w < before.len() && before[w]@ == k@;
                        assert(views(before)[w] == k@);
                    }
                }
                i = i + 1;
            }
            proof {
                assert(ks.take(es@.len() as int) =~= ks);
            }
        }
        _ => {
            proof {
                assert(start + object_keys(j@) =~= start);
            }
        }
    }
}

/// Compare two records and return field differences: the fields of either
/// record, except the key columns, whose values `same` does not call equal.
pub fn diff_records<F: Fn(&Json, &Json) -> bool>(source: &Json, target: &Json, key_columns: &[&str], same: &F) -> (r: Vec<FieldChange>)
    requires
        is_value_test(*same),
    ensures
        changes_view(r@) == record_changes(*same, source@, target@, column_names(key_columns@)),
{
    let mut changes: Vec<FieldChange> = Vec::new();
    let both = match (source, target) {
        (Json::Object(_), Json::Object(_)) => true,
        _ => false,
    };
    if !both {
        proof {
            assert(changes_view(changes@) =~= Seq::<(Seq<char>, JsonV, JsonV)>::empty());
        }
        return changes;
    }
    let mut fields: Vec<String> = Vec::new();
    proof {
        assert(views(fields@) =~= Seq::<Seq<char>>::empty());
        assert(dedup(Seq::<Seq<char>>::empty()) =~= Seq::<Seq<char>>::empty());
    }
    add_keys(&mut fields, source);
    proof {
        lemma_dedup_idem(Seq::<Seq<char>>::empty() + object_keys(source@));
        assert(Seq::<Seq<char>>::empty() + object_keys(source@) =~= object_keys(source@));
    }
    add_keys(&mut fields, target);
    let ghost fv = views(fields@);
    proof {
        lemma_dedup_append(object_keys(source@), object_keys(target@));
        assert(fv == dedup(object_keys(source@) + object_keys(target@)));
    }
    let ghost cols = column_names(key_columns@);
    let null = Json::Null;
    let mut i: usize = 0;
    while i < fields.len()
        invariant
            i <= fields@.len(),
            fv == views(fields@),
            cols == column_names(key_columns@),
            is_value_test(*same),
            null@ == JsonV::Null,
            changes_view(changes@) == changed_fields(*same, fv.take(i as int), source@, target@, cols),
        decreases fields@.len() - i,
    {
        let f = fields[i].as_str();
        proof {
            assert(fv[i as int] == f@);
            assert(fv.take(i + 1).drop_last() =~= fv.take(i as int));
            assert(fv.take(i + 1).last() == f@);
        }
        if !is_key_column(key_columns, f) {
            let sv = match source.get(f) { Some(v) => v, None => &null };
            let tv = match target.get(f) { Some(v) => v, None => &null };
            proof {
                assert(sv@ == field_or_null(source@, f@));
                assert(tv@ == field_or_null(target@, f@));
            }
            if !ask_same(same, sv, tv) {
                let ghost before = changes@;
                changes.push(FieldChange { field: fields[i].clone(), old_value: sv.clone(), new_value: tv.clone() });
                proof {
                    assert(changes_view(changes@) =~= changes_view(before).push((f@, sv@, tv@)));
                }
            }
        }
        i = i + 1;
    }
    proof {
        assert(fv.take(fields@.len() as int) =~= fv);
    }
    changes
}

/// The dedup has no repeats and holds the same names.
proof fn lemma_dedup_props(s: Seq<Seq<char>>)
    ensures
        dedup(s).no_duplicates(),
        forall|x: Seq<char>| #[trigger] dedup(s).contains(x) <==> s.contains(x),
    decreases s.len(),
{
    if s.len() > 0 {
        lemma_dedup_props(s.drop_last());
        let d = dedup(s.drop_last());
        if !d.contains(s.last()) {
            let e = d.push(s.last());
            assert forall|a: int, b: int| 0 <= a < e.len() && 0 <= b < e.len() && a != b implies e[a] != e[b] by {
                if a < d.len() && b < d.len() {
                    assert(e[a] == d[a] && e[b] == d[b]);
                } else if a < d.len() {
                    assert(e[a] == d[a]);
                } else {
                    assert(e[b] == d[b]);
                }
            }
        }
        assert forall|x: Seq<char>| #[trigger] dedup(s).contains(x) <==> s.contains(x) by {
            let l = s.last();
            let p = s.drop_last();
            assert(d.contains(x) <==> p.contains(x));
            if p.contains(x) {
                let w = choose|w: int| 0 <= w < p.len() && p[w] == x;
                assert(s[w] == x);
            }
            if s.contains(x) {
                let w = choose|w: int| 0 <= w < s.len() && s[w] == x;
                if w < s.len() - 1 {
                    assert(p[w] == x);
                } else {
                    assert(x == l);
                }
            }
            if d.contains(l) {
                assert(dedup(s) == d);
            } else {
                let e = d.push(l);
                assert(dedup(s) == e);
                if d.contains(x) {
                    let w = choose|w: int| 0 <= w < d.len() && d[w] == x;
                    assert(e[w] == x);
                }
                if x == l {
                    assert(e[d.len() as int] == x);
                }
                if e.contains(x) {
                    let w = choose|w: int| 0 <= w < e.len() && e[w] == x;
                    if w < d.len() {
                        assert(d[w] == x);
                    }
                }
            }
        }
    }
}

/// Listing names again changes nothing.
proof fn lemma_dedup_idem(s: Seq<Seq<char>>)
    ensures
        dedup(dedup(s)) == dedup(s),
{
    lemma_dedup_props(s);
    lemma_dedup_of_distinct(dedup(s));
}

/// A list without repeats is its own dedup.
proof fn lemma_dedup_of_distinct(s: Seq<Seq<char>>)
    requires
        s.no_duplicates(),
    ensures
        dedup(s) == s,
    decreases s.len(),
{
    if s.len() > 0 {
        lemma_dedup_of_distinct(s.drop_last());
        assert(!s.drop_last().contains(s.last())) by {
            if s.drop_last().contains(s.last()) {
                let w = choose|w: int| 0 <= w < s.drop_last().len() && s.drop_last()[w] == s.last();
                assert(s[w] == s[s.len() - 1]);
            }
        }
        assert(s.drop_last().push(s.last()) =~= s);
    }
}

/// Dedup of a concatenation: the dedup of the first part, extended.
proof fn lemma_dedup_append(a: Seq<Seq<char>>, b: Seq<Seq<char>>)
    ensures
        dedup(dedup(a) + b) == dedup(a + b),
    decreases b.len(),
{
    if b.len() == 0 {
        assert(dedup(a) + b =~= dedup(a));
        assert(a + b =~= a);
        lemma_dedup_idem(a);
    } else {
        lemma_dedup_append(a, b.drop_last());
        assert((dedup(a) + b).drop_last() =~= dedup(a) + b.drop_last());
        assert((a + b).drop_last() =~= a + b.drop_last());
        assert((dedup(a) + b).last() == b.last());
        assert((a + b).last() == b.last());
    }
}

/// The entries with `(k, r)` put in place: replacing the entry with key `k`,
/// or inserted before the first entry with a greater key.
pub open spec fn insert_keyed(m: Seq<(Seq<char>, JsonV)>, k: Seq<char>, r: JsonV) -> Seq<(Seq<char>, JsonV)>
    decreases m.len(),
{
    if m.len() == 0 {
        seq![(k, r)]
    } else if m[0].0 == k {
        m.update(0, (k, r))
    } else if str_lt(k, m[0].0) {
        seq![(k, r)] + m
    } else {
        seq![m[0]] + insert_keyed(m.drop_first(), k, r)
    }
}

/// The records of a table by key text: sorted by key text, each key once,
/// with the last record that has the key.
pub open spec fn keyed(rows: Seq<JsonV>, cols: Seq<Seq<char>>) -> Seq<(Seq<char>, JsonV)>
    decreases rows.len(),
{
    if rows.len() == 0 {
        Seq::empty()
    } else {
        insert_keyed(keyed(rows.drop_last(), cols), key_text(key_of(rows.last(), cols)), rows.last())
    }
}

/// The keys are in strictly increasing order.
pub open spec fn keys_sorted(m: Seq<(Seq<char>, JsonV)>) -> bool {
    forall|a: int, b: int| 0 <= a < b < m.len() ==> str_lt(m[a].0, m[b].0)
}

/// The models of keyed entries.
pub open spec fn keyed_view(m: Seq<(String, Json)>) -> Seq<(Seq<char>, JsonV)> {
    m.map_values(|e: (String, Json)| (e.0@, e.1@))
}

proof fn lemma_insert_keyed_at(m: Seq<(Seq<char>, JsonV)>, k: Seq<char>, r: JsonV, p: int)
    requires
        keys_sorted(m),
        0 <= p <= m.len(),
        forall|i: int| 0 <= i < p ==> str_lt(m[i].0, k),
        p == m.len() || !str_lt(m[p].0, k),
    ensures
        insert_keyed(m, k, r) == if p < m.len() && m[p].0 == k { m.update(p, (k, r)) } else { m.insert(p, (k, r)) },
    decreases m.len(),
{
    if m.len() == 0 {
        assert(seq![(k, r)] =~= m.insert(0, (k, r)));
    } else if p == 0 {
        if m[0].0 != k {
            lemma_str_lt_total(m[0].0, k);
            assert(seq![(k, r)] + m =~= m.insert(0, (k, r)));
        }
    } else {
        lemma_str_lt_total(m[0].0, k);
        lemma_str_lt_irrefl(k);
        let t = m.drop_first();
        assert forall|a: int, b: int| 0 <= a < b < t.len() implies str_lt(t[a].0, t[b].0) by {
            assert(t[a] == m[a + 1] && t[b] == m[b + 1]);
        }
        assert forall|i: int| 0 <= i < p - 1 implies str_lt(t[i].0, k) by {
            assert(t[i] == m[i + 1]);
        }
        if p < m.len() {
            assert(t[p - 1] == m[p]);
        }
        lemma_insert_keyed_at(t, k, r, p - 1);
        if p < m.len() && m[p].0 == k {
            assert(seq![m[0]] + t.update(p - 1, (k, r)) =~= m.update(p, (k, r)));
        } else {
            assert(seq![m[0]] + t.insert(p - 1, (k, r)) =~= m.insert(p, (k, r)));
        }
    }
}

/// Puts `(k, r)` in place in the keyed entries (see `insert_keyed`).
fn insert_keyed_entry(m: &mut Vec<(String, Json)>, k: String, r: Json)
    requires
        keys_sorted(keyed_view(old(m)@)),
    ensures
        keys_sorted(keyed_view(final(m)@)),
        keyed_view(final(m)@) == insert_keyed(keyed_view(old(m)@), k@, r@),
{
    let ghost mv = keyed_view(m@);
    let ghost kv = k@;
    let ghost rv = r@;
    let mut p: usize = 0;
    while p < m.len() && str_less(m[p].0.as_str(), k.as_str())
        invariant
            mv == keyed_view(m@),
            p <= m@.len(),
            forall|i: int| 0 <= i < p ==> str_lt(mv[i].0, k@),
        decreases m@.len() - p,
    {
        p = p + 1;
    }
    proof {
        if p < m@.len() {
            assert(mv[p as int].0 == m@[p as int].0@);
        }
        lemma_insert_keyed_at(mv, kv, rv, p as int);
    }
    if p < m.len() && str_eq(m[p].0.as_str(), k.as_str()) {
        m.set(p, (k, r));
        proof {
            assert(keyed_view(m@) =~= mv.update(p as int, (kv, rv)));
        }
    } else {
        proof {
            if p < mv.len() {
                assert(mv[p as int].0 != kv);
            }
        }
        m.insert(p, (k, r));
        proof {
            assert(keyed_view(m@) =~= mv.insert(p as int, (kv, rv)));
            let nv = keyed_view(m@);
            if p < mv.len() {
                lemma_str_lt_total(mv[p as int].0, kv);
            }
            assert forall|a: int, b: int| 0 <= a < b < nv.len() implies str_lt(nv[a].0, nv[b].0) by {
                if b < p {
                    assert(nv[a] == mv[a] && nv[b] == mv[b]);
                } else if b == p {
                    assert(nv[a] == mv[a]);
                } else if a < p {
                    assert(nv[a] == mv[a] && nv[b] == mv[b - 1]);
                    if b - 1 > p {
                        lemma_str_lt_trans(kv, mv[p as int].0, mv[b - 1].0);
                    }
                    lemma_str_lt_trans(mv[a].0, kv, mv[b - 1].0);
                } else if a == p {
                    assert(nv[b] == mv[b - 1]);
                    if b - 1 > p {
                        lemma_str_lt_trans(kv, mv[p as int].0, mv[b - 1].0);
                    }
                } else {
                    assert(nv[a] == mv[a - 1] && nv[b] == mv[b - 1]);
                }
            }
        }
    }
}

/// The records of a table by key text (see `keyed`).
fn build_keyed(rows: &[Json], key_columns: &[&str]) -> (r: Vec<(String, Json)>)
    ensures
        keys_sorted(keyed_view(r@)),
        keyed_view(r@) == keyed(rows@.map_values(|j: Json| j@), column_names(key_columns@)),
{
    let ghost rv = rows@.map_values(|j: Json| j@);
    let ghost cols = column_names(key_columns@);
    let mut m: Vec<(String, Json)> = Vec::new();
    proof {
        assert(keyed_view(m@) =~= Seq::<(Seq<char>, JsonV)>::empty());
    }
    let mut i: usize = 0;
    while i < rows.len()
        invariant
            i <= rows@.len(),
            rv == rows@.map_values(|j: Json| j@),
            cols == column_names(key_columns@),
            keys_sorted(keyed_view(m@)),
            keyed_view(m@) == keyed(rv.take(i as int), cols),
        decreases rows@.len() - i,
    {
        proof {
            assert(rv.take(i + 1).drop_last() =~= rv.take(i as int));
            assert(rv.take(i + 1).last() == rows@[i as int]@);
        }
        let key = extract_key(&rows[i], key_columns);
        let ks = key_to_string(&key);
        insert_keyed_entry(&mut m, ks, rows[i].clone());
        i = i + 1;
    }
    proof {
        assert(rv.take(rows@.len() as int) =~= rv);
    }
    m
}

/// Some entry has the key.
pub open spec fn has_key(m: Seq<(Seq<char>, JsonV)>, k: Seq<char>) -> bool {
    exists|i: int| 0 <= i < m.len() && m[i].0 == k
}

/// The record stored under the key.
pub open spec fn lookup_key(m: Seq<(Seq<char>, JsonV)>, k: Seq<char>) -> JsonV {
    m[choose|i: int| 0 <= i < m.len() && m[i].0 == k].1
}

/// The records of `m` whose key `other` lacks, in key order.
pub open spec fn missing_rows(m: Seq<(Seq<char>, JsonV)>, other: Seq<(Seq<char>, JsonV)>) -> Seq<JsonV>
    decreases m.len(),
{
    if m.len() == 0 {
        Seq::empty()
    } else {
        let pre = missing_rows(m.drop_last(), other);
        if !has_key(other, m.last().0) { pre.push(m.last().1) } else { pre }
    }
}

/// The records of `ks` whose key `kt` has too and whose fields changed:
/// their key and their changes, in key order.
pub open spec fn modified_rows<F: Fn(&Json, &Json) -> bool>(
    same: F,
    ks: Seq<(Seq<char>, JsonV)>,
    kt: Seq<(Seq<char>, JsonV)>,
    cols: Seq<Seq<char>>,
) -> Seq<(JsonV, Seq<(Seq<char>, JsonV, JsonV)>)>
    decreases ks.len(),
{
    if ks.len() == 0 {
        Seq::empty()
    } else {
        let pre = modified_rows(same, ks.drop_last(), kt, cols);
        let e = ks.last();
        if has_key(kt, e.0) {
            let ch = record_changes(same, e.1, lookup_key(kt, e.0), cols);
            if ch.len() > 0 { pre.push((key_of(e.1, cols), ch)) } else { pre }
        } else {
            pre
        }
    }
}

/// The models of modified records.
pub open spec fn modified_view(v: Seq<ModifiedRecord>) -> Seq<(JsonV, Seq<(Seq<char>, JsonV, JsonV)>)> {
    v.map_values(|m: ModifiedRecord| (m.key@, changes_view(m.changes@)))
}

/// `d` is the diff of the two tables' records: the target records whose key
/// the source lacks (added), the source records whose key the target lacks
/// (removed), and the records of both with changed fields (modified), each
/// in key order, with the last record of each key.
pub open spec fn table_diff_of<F: Fn(&Json, &Json) -> bool>(
    d: TableDiff,
    same: F,
    src: Seq<JsonV>,
    tgt: Seq<JsonV>,
    cols: Seq<Seq<char>>,
) -> bool {
    let ks = keyed(src, cols);
    let kt = keyed(tgt, cols);
    &&& d.added@.map_values(|j: Json| j@) == missing_rows(kt, ks)
    &&& d.removed@.map_values(|j: Json| j@) == missing_rows(ks, kt)
    &&& modified_view(d.modified@) == modified_rows(same, ks, kt, cols)
}

/// The position of the key among sorted keyed entries.
fn find_key(m: &Vec<(String, Json)>, k: &str) -> (r: Option<usize>)
    requires
        keys_sorted(keyed_view(m@)),
    ensures
        match r {
            Some(i) => i < m@.len() && keyed_view(m@)[i as int].0 == k@ && has_key(keyed_view(m@), k@)
                && lookup_key(keyed_view(m@), k@) == m@[i as int].1@,
            None => !has_key(keyed_view(m@), k@),
        },
{
    let ghost mv = keyed_view(m@);
    let mut i: usize = 0;
    while i < m.len()
        invariant
            mv == keyed_view(m@),
            keys_sorted(mv),
            i <= m@.len(),
            forall|j: int| 0 <= j < i ==> mv[j].0 != k@,
        decreases m@.len() - i,
    {
        if str_eq(m[i].0.as_str(), k) {
            proof {
                assert(mv[i as int].0 == k@);
                let c = choose|c: int| 0 <= c < mv.len() && mv[c].0 == k@;
                lemma_str_lt_irrefl(k@);
                if c < i as int {
                    assert(str_lt(mv[c].0, mv[i as int].0));
                } else if c > i as int {
                    assert(str_lt(mv[i as int].0, mv[c].0));
                }
                assert(mv[i as int].1 == m@[i as int].1@);
            }
            return Some(i);
        }
        i = i + 1;
    }
    None
}

/// Diff a single table's data (see `table_diff_of`).
pub fn diff_table<F: Fn(&Json, &Json) -> bool>(source_rows: &[Json], target_rows: &[Json], key_columns: &[&str], same: &F) -> (r: TableDiff)
    requires
        is_value_test(*same),
    ensures
        table_diff_of(r, *same, source_rows@.map_values(|j: Json| j@), target_rows@.map_values(|j: Json| j@), column_names(key_columns@)),
{
    let ghost cols = column_names(key_columns@);
    let source_by_key = build_keyed(source_rows, key_columns);
    let target_by_key = build_keyed(target_rows, key_columns);
    let ghost ks = keyed_view(source_by_key@);
    let ghost kt = keyed_view(target_by_key@);
    let mut diff = TableDiff::new();
    proof {
        assert(diff.added@.map_values(|j: Json| j@) =~= missing_rows(kt.take(0), ks));
    }
    // added: in target but not in source
    let mut i: usize = 0;
    while i < target_by_key.len()
        invariant
            i <= target_by_key@.len(),
            kt == keyed_view(target_by_key@),
            ks == keyed_view(source_by_key@),
            keys_sorted(ks),
            diff.added@.map_values(|j: Json| j@) == missing_rows(kt.take(i as int), ks),
            diff.removed@.len() == 0,
            diff.modified@.len() == 0,
        decreases target_by_key@.len() - i,
    {
        proof {
            assert(kt.take(i + 1).drop_last() =~= kt.take(i as int));
            assert(kt.take(i + 1).last() == kt[i as int]);
        }
        if find_key(&source_by_key, target_by_key[i].0.as_str()).is_none() {
            let ghost before = diff.added@;
            diff.added.push(target_by_key[i].1.clone());
            proof {
                assert(diff.added@.map_values(|j: Json| j@) =~= before.map_values(|j: Json| j@).push(kt[i as int].1));
            }
        }
        i = i + 1;
    }
    // removed: in source but not in target
    proof {
        assert(kt.take(kt.len() as int) =~= kt);
        assert(diff.removed@.map_values(|x: Json| x@) =~= missing_rows(ks.take(0), kt));
    }
    let mut j: usize = 0;
    while j < source_by_key.len()
        invariant
            j <= source_by_key@.len(),
            kt == keyed_view(target_by_key@),
            ks == keyed_view(source_by_key@),
            keys_sorted(kt),
            diff.removed@.map_values(|x: Json| x@) == missing_rows(ks.take(j as int), kt),
            diff.added@.map_values(|x: Json| x@) == missing_rows(kt, ks),
            diff.modified@.len() == 0,
        decreases source_by_key@.len() - j,
    {
        proof {
            assert(ks.take(j + 1).drop_last() =~= ks.take(j as int));
            assert(ks.take(j + 1).last() == ks[j as int]);
        }
        if find_key(&target_by_key, source_by_key[j].0.as_str()).is_none() {
            let ghost before = diff.removed@;
            diff.removed.push(source_by_key[j].1.clone());
            proof {
                assert(diff.removed@.map_values(|x: Json| x@) =~= before.map_values(|x: Json| x@).push(ks[j as int].1));
            }
        }
        j = j + 1;
    }
    // modified: in both, with changed fields
    proof {
        assert(ks.take(ks.len() as int) =~= ks);
        assert(modified_view(diff.modified@) =~= modified_rows(*same, ks.take(0), kt, cols));
    }
    let mut k: usize = 0;
    while k < source_by_key.len()
        invariant
            k <= source_by_key@.len(),
            kt == keyed_view(target_by_key@),
            ks == keyed_view(source_by_key@),
            keys_sorted(kt),
            cols == column_names(key_columns@),
            is_value_test(*same),
            modified_view(diff.modified@) == modified_rows(*same, ks.take(k as int), kt, cols),
            diff.added@.map_values(|x: Json| x@) == missing_rows(kt, ks),
            diff.removed@.map_values(|x: Json| x@) == missing_rows(ks, kt),
        decreases source_by_key@.len() - k,
    {
        proof {
            assert(ks.take(k + 1).drop_last() =~= ks.take(k as int));
            assert(ks.take(k + 1).last() == ks[k as int]);
        }
        match find_key(&target_by_key, source_by_key[k].0.as_str()) {
            Some(t) => {
                let changes = diff_records(&source_by_key[k].1, &target_by_key[t].1, key_columns, same);
                if changes.len() > 0 {
                    let key = extract_key(&source_by_key[k].1, key_columns);
                    let ghost before = diff.modified@;
                    diff.modified.push(ModifiedRecord { key, changes });
                    proof {
                        assert(modified_view(diff.modified@) =~= modified_view(before).push(
                            (key_of(ks[k as int].1, cols), record_changes(*same, ks[k as int].1, lookup_key(kt, ks[k as int].0), cols)),
                        ));
                    }
                }
            }
            None => {}
        }
        k = k + 1;
    }
    proof {
        assert(kt.take(kt.len() as int) =~= kt);
        assert(ks.take(ks.len() as int) =~= ks);
    }
    diff
}

/// Complete diff between two snapshots.
#[derive(Debug, Clone)]
pub struct SnapshotDiff {
    /// Source description.
    pub source_label: String,
    /// Target description.
    pub target_label: String,
    /// Diff results per table, in table-name order, each name once.
    pub tables: Vec<(String, TableDiff)>,
}

/// The diff has no change.
pub open spec fn table_diff_empty(d: TableDiff) -> bool {
    d.added@.len() == 0 && d.removed@.len() == 0 && d.modified@.len() == 0
}

/// The total number of changes of the tables.
pub open spec fn changes_total(ts: Seq<(String, TableDiff)>) -> int
    decreases ts.len(),
{
    if ts.len() == 0 {
        0
    } else {
        changes_total(ts.drop_last()) + ts.last().1.added@.len() + ts.last().1.removed@.len() + ts.last().1.modified@.len()
    }
}

/// The (name, added, removed, modified) counts of the tables with changes.
pub open spec fn change_summary(ts: Seq<(String, TableDiff)>) -> Seq<(Seq<char>, nat, nat, nat)>
    decreases ts.len(),
{
    if ts.len() == 0 {
        Seq::empty()
    } else {
        let pre = change_summary(ts.drop_last());
        let d = ts.last().1;
        if table_diff_empty(d) {
            pre
        } else {
            pre.push((ts.last().0@, d.added@.len(), d.removed@.len(), d.modified@.len()))
        }
    }
}

impl SnapshotDiff {
    /// Whether there are no changes in any table.
    pub fn is_empty(&self) -> (r: bool)
        ensures
            r == forall|i: int| 0 <= i < self.tables@.len() ==> #[trigger] table_diff_empty(self.tables@[i].1),
    {
        let mut i: usize = 0;
        while i < self.tables.len()
            invariant
                i <= self.tables@.len(),
                forall|k: int| 0 <= k < i ==> #[trigger] table_diff_empty(self.tables@[k].1),
            decreases self.tables@.len() - i,
        {
            if !self.tables[i].1.is_empty() {
                proof {
                    assert(!table_diff_empty(self.tables@[i as int].1));
                }
                return false;
            }
            i = i + 1;
        }
        true
    }

    /// Total number of changes across all tables.
    pub fn total_changes(&self) -> (r: usize)
        requires
            changes_total(self.tables@) <= usize::MAX,
        ensures
            r == changes_total(self.tables@),
    {
        let mut total: usize = 0;
        let mut i: usize = 0;
        while i < self.tables.len()
            invariant
                i <= self.tables@.len(),
                changes_total(self.tables@) <= usize::MAX,
                total == changes_total(self.tables@.take(i as int)),
            decreases self.tables@.len() - i,
        {
            proof {
                assert(self.tables@.take(i + 1).drop_last() =~= self.tables@.take(i as int));
                lemma_changes_total_prefix(self.tables@, i + 1);
            }
            let d = &self.tables[i].1;
            total = total + d.added.len() + d.removed.len() + d.modified.len();
            i = i + 1;
        }
        proof {
            assert(self.tables@.take(self.tables@.len() as int) =~= self.tables@);
        }
        total
    }

    /// The (table, added, removed, modified) counts of the tables with
    /// changes, in table order.
    pub fn summary(&self) -> (r: Vec<(String, usize, usize, usize)>)
        ensures
            r@.map_values(|e: (String, usize, usize, usize)| (e.0@, e.1 as nat, e.2 as nat, e.3 as nat)) == change_summary(self.tables@),
    {
        let mut out: Vec<(String, usize, usize, usize)> = Vec::new();
        let mut i: usize = 0;
        while i < self.tables.len()
            invariant
                i <= self.tables@.len(),
                out@.map_values(|e: (String, usize, usize, usize)| (e.0@, e.1 as nat, e.2 as nat, e.3 as nat))
                    == change_summary(self.tables@.take(i as int)),
            decreases self.tables@.len() - i,
        {
            proof {
                assert(self.tables@.take(i + 1).drop_last() =~= self.tables@.take(i as int));
                assert(self.tables@.take(i + 1).last() == self.tables@[i as int]);
            }
            let d = &self.tables[i].1;
            if !d.is_empty() {
                let ghost before = out@;
                out.push((self.tables[i].0.clone(), d.added.len(), d.removed.len(), d.modified.len()));
                proof {
                    assert(out@.map_values(|e: (String, usize, usize, usize)| (e.0@, e.1 as nat, e.2 as nat, e.3 as nat))
                        =~= before.map_values(|e: (String, usize, usize, usize)| (e.0@, e.1 as nat, e.2 as nat, e.3 as nat)).push(
                            (self.tables@[i as int].0@, d.added@.len(), d.removed@.len(), d.modified@.len())));
                }
            }
            i = i + 1;
        }
        proof {
            assert(self.tables@.take(self.tables@.len() as int) =~= self.tables@);
        }
        out
    }
}

proof fn lemma_changes_total_prefix(ts: Seq<(String, TableDiff)>, k: int)
    requires
        0 <= k <= ts.len(),
    ensures
        changes_total(ts.take(k)) <= changes_total(ts),
    decreases ts.len() - k,
{
    if k < ts.len() {
        lemma_changes_total_prefix(ts, k + 1);
        assert(ts.take(k + 1).drop_last() =~= ts.take(k));
    } else {
        assert(ts.take(k) =~= ts);
    }
}

/// The names, sorted, each once (as the keys of `insert_keyed`).
pub open spec fn sorted_names(ns: Seq<Seq<char>>) -> Seq<(Seq<char>, JsonV)>
    decreases ns.len(),
{
    if ns.len() == 0 {
        Seq::empty()
    } else {
        insert_keyed(sorted_names(ns.drop_last()), ns.last(), JsonV::Null)
    }
}

/// The table names of the tables.
pub open spec fn names_of(tv: Seq<(Seq<char>, Seq<JsonV>)>) -> Seq<Seq<char>> {
    tv.map_values(|e: (Seq<char>, Seq<JsonV>)| e.0)
}

/// The two tables differ.
pub open spec fn tables_differ<F: Fn(&Json, &Json) -> bool>(same: F, src: Seq<JsonV>, tgt: Seq<JsonV>, cols: Seq<Seq<char>>) -> bool {
    let ks = keyed(src, cols);
    let kt = keyed(tgt, cols);
    missing_rows(kt, ks).len() > 0 || missing_rows(ks, kt).len() > 0 || modified_rows(same, ks, kt, cols).len() > 0
}

/// The names, in order, of the tables that differ between the snapshots.
pub open spec fn differing_tables<F: Fn(&Json, &Json) -> bool>(
    same: F,
    names: Seq<(Seq<char>, JsonV)>,
    stv: Seq<(Seq<char>, Seq<JsonV>)>,
    ttv: Seq<(Seq<char>, Seq<JsonV>)>,
) -> Seq<Seq<char>>
    decreases names.len(),
{
    if names.len() == 0 {
        Seq::empty()
    } else {
        let pre = differing_tables(same, names.drop_last(), stv, ttv);
        let n = names.last().0;
        if tables_differ(same, table_rows(stv, n), table_rows(ttv, n), table_primary_key(n)) { pre.push(n) } else { pre }
    }
}

/// `d` is the diff between the snapshots with tables `stv` and `ttv`: one
/// entry per table that differs, in table-name order, each the diff of the
/// table's records by the table's primary key.
pub open spec fn snapshot_diff_of<F: Fn(&Json, &Json) -> bool>(
    d: SnapshotDiff,
    same: F,
    stv: Seq<(Seq<char>, Seq<JsonV>)>,
    ttv: Seq<(Seq<char>, Seq<JsonV>)>,
) -> bool {
    let names = differing_tables(same, sorted_names(names_of(stv) + names_of(ttv)), stv, ttv);
    &&& d.source_label@ == "source"@
    &&& d.target_label@ == "target"@
    &&& d.tables@.len() == names.len()
    &&& forall|i: int| 0 <= i < names.len() ==> (#[trigger] d.tables@[i]).0@ == names[i]
        && table_diff_of(d.tables@[i].1, same, table_rows(stv, names[i]), table_rows(ttv, names[i]), table_primary_key(names[i]))
}

/// The rows of the named table of the snapshot, or none.
fn rows_or_empty<'a>(snapshot: &'a Snapshot, name: &str, empty: &'a Vec<Json>) -> (r: &'a Vec<Json>)
    requires
        snapshot.tables.wf(),
        empty@.len() == 0,
    ensures
        r@.map_values(|j: Json| j@) == table_rows(snapshot.tables@, name@),
{
    match snapshot.get_table(name) {
        Some(rows) => rows,
        None => {
            proof {
                assert(empty@.map_values(|j: Json| j@) =~= Seq::<JsonV>::empty());
            }
            empty
        }
    }
}

/// Adds the table names of the tables, in place, to the sorted names.
fn add_table_names(names: &mut Vec<(String, Json)>, tables: &Tables)
    requires
        keys_sorted(keyed_view(old(names)@)),
    ensures
        keys_sorted(keyed_view(final(names)@)),
        keyed_view(final(names)@) == fold_names(keyed_view(old(names)@), names_of(tables@)),
{
    let ghost start = keyed_view(names@);
    let ghost tn = names_of(tables@);
    let es = tables.entries();
    let mut i: usize = 0;
    proof {
        assert(tn.take(0) =~= Seq::<Seq<char>>::empty());
    }
    while i < es.len()
        invariant
            es@.len() == tn.len(),
            tn == names_of(tables@),
            forall|k: int| 0 <= k < es@.len() ==> (#[trigger] es@[k]).0@ == tables@[k].0,
            i <= es@.len(),
            keys_sorted(keyed_view(names@)),
            keyed_view(names@) == fold_names(start, tn.take(i as int)),
        decreases es@.len() - i,
    {
        proof {
            assert(tn.take(i + 1).drop_last() =~= tn.take(i as int));
            assert(tn.take(i + 1).last() == tn[i as int]);
            assert(tn[i as int] == es@[i as int].0@);
        }
        insert_keyed_entry(names, es[i].0.clone(), Json::Null);
        i = i + 1;
    }
    proof {
        assert(tn.take(tn.len() as int) =~= tn);
    }
}

/// The names put in place one by one into sorted entries.
pub open spec fn fold_names(m: Seq<(Seq<char>, JsonV)>, ns: Seq<Seq<char>>) -> Seq<(Seq<char>, JsonV)>
    decreases ns.len(),
{
    if ns.len() == 0 {
        m
    } else {
        insert_keyed(fold_names(m, ns.drop_last()), ns.last(), JsonV::Null)
    }
}

proof fn lemma_fold_names(a: Seq<Seq<char>>, b: Seq<Seq<char>>)
    ensures
        fold_names(fold_names(Seq::empty(), a), b) == sorted_names(a + b),
        fold_names(Seq::empty(), a) == sorted_names(a),
    decreases a.len() + b.len(),
{
    if b.len() == 0 {
        assert(a + b =~= a);
        if a.len() > 0 {
            lemma_fold_names(a.drop_last(), Seq::empty());
        }
    } else {
        lemma_fold_names(a, b.drop_last());
        assert((a + b).drop_last() =~= a + b.drop_last());
        assert((a + b).last() == b.last());
    }
}

/// The diffs of the named tables, in order, keeping those that differ.
fn diff_named_tables<F: Fn(&Json, &Json) -> bool>(
    names: &Vec<(String, Json)>,
    source: &Snapshot,
    target: &Snapshot,
    same: &F,
) -> (r: Vec<(String, TableDiff)>)
    requires
        source.tables.wf(),
        target.tables.wf(),
        is_value_test(*same),
    ensures
        ({
            let want = differing_tables(*same, keyed_view(names@), source.tables@, target.tables@);
            &&& r@.len() == want.len()
            &&& forall|t: int| 0 <= t < want.len() ==> (#[trigger] r@[t]).0@ == want[t]
                && table_diff_of(r@[t].1, *same, table_rows(source.tables@, want[t]), table_rows(target.tables@, want[t]),
                    table_primary_key(want[t]))
        }),
{
    let ghost nv = keyed_view(names@);
    let ghost stv = source.tables@;
    let ghost ttv = target.tables@;
    let empty: Vec<Json> = Vec::new();
    let mut tables: Vec<(String, TableDiff)> = Vec::new();
    let mut k: usize = 0;
    proof {
        assert(nv.take(0) =~= Seq::<(Seq<char>, JsonV)>::empty());
    }
    while k < names.len()
        invariant
            k <= names@.len(),
            nv == keyed_view(names@),
            stv == source.tables@,
            ttv == target.tables@,
            source.tables.wf(),
            target.tables.wf(),
            is_value_test(*same),
            empty@.len() == 0,
            ({
                let want = differing_tables(*same, nv.take(k as int), stv, ttv);
                &&& tables@.len() == want.len()
                &&& forall|t: int| 0 <= t < want.len() ==> (#[trigger] tables@[t]).0@ == want[t]
                    && table_diff_of(tables@[t].1, *same, table_rows(stv, want[t]), table_rows(ttv, want[t]), table_primary_key(want[t]))
            }),
        decreases names@.len() - k,
    {
        let name = &names[k].0;
        proof {
            assert(nv.take(k + 1).drop_last() =~= nv.take(k as int));
            assert(nv.take(k + 1).last() == nv[k as int]);
            assert(nv[k as int].0 == name@);
        }
        let cols = get_table_primary_key(name.as_str());
        let src_rows = rows_or_empty(source, name.as_str(), &empty);
        let tgt_rows = rows_or_empty(target, name.as_str(), &empty);
        let d = diff_table(src_rows.as_slice(), tgt_rows.as_slice(), cols.as_slice(), same);
        proof {
            assert(column_names(cols@) =~= table_primary_key(name@));
        }
        let ghost before = tables@;
        if !d.is_empty() {
            tables.push((name.clone(), d));
            proof {
                let want = differing_tables(*same, nv.take(k + 1), stv, ttv);
                assert forall|t: int| 0 <= t < want.len() implies (#[trigger] tables@[t]).0@ == want[t]
                    && table_diff_of(tables@[t].1, *same, table_rows(stv, want[t]), table_rows(ttv, want[t]), table_primary_key(want[t])) by {
                    if t < before.len() {
                        assert(tables@[t] == before[t]);
                    }
                }
            }
        }
        k = k + 1;
    }
    proof {
        assert(nv.take(nv.len() as int) =~= nv);
    }
    tables
}

/// Compare two snapshots (see `snapshot_diff_of`): "added" are records in
/// the target but not in the source, "removed" the other way round, and
/// "modified" records with the same key but different values.
pub fn diff_snapshots<F: Fn(&Json, &Json) -> bool>(source: &Snapshot, target: &Snapshot, same: &F) -> (r: SnapshotDiff)
    requires
        source.tables.wf(),
        target.tables.wf(),
        is_value_test(*same),
    ensures
        snapshot_diff_of(r, *same, source.tables@, target.tables@),
{
    let mut names: Vec<(String, Json)> = Vec::new();
    proof {
        assert(keyed_view(names@) =~= Seq::<(Seq<char>, JsonV)>::empty());
    }
    add_table_names(&mut names, &source.tables);
    add_table_names(&mut names, &target.tables);
    proof {
        lemma_fold_names(names_of(source.tables@), names_of(target.tables@));
    }
    let tables = diff_named_tables(&names, source, target, same);
    SnapshotDiff { source_label: string_of("source"), target_label: string_of("target"), tables }
}

/// `same` calls every value equal to itself.
pub open spec fn reflexive<F: Fn(&Json, &Json) -> bool>(same: F) -> bool {
    forall|v: JsonV| #[trigger] same_says(same, v, v)
}

/// Putting an entry in place keeps the keys sorted and adds no key but its
/// own.
proof fn lemma_insert_keyed_sorted(m: Seq<(Seq<char>, JsonV)>, k: Seq<char>, r: JsonV)
    requires
        keys_sorted(m),
    ensures
        keys_sorted(insert_keyed(m, k, r)),
        forall|i: int| 0 <= i < insert_keyed(m, k, r).len() ==> (#[trigger] insert_keyed(m, k, r)[i]).0 == k
            || exists|j: int| 0 <= j < m.len() && m[j].0 == insert_keyed(m, k, r)[i].0,
    decreases m.len(),
{
    let res = insert_keyed(m, k, r);
    if m.len() == 0 {
    } else if m[0].0 == k {
        assert forall|i: int| 0 <= i < res.len() implies res[i].0 == k || exists|j: int|
            0 <= j < m.len() && m[j].0 == res[i].0 by {
            if i > 0 {
                assert(m[i].0 == res[i].0);
            }
        }
    } else if str_lt(k, m[0].0) {
        assert forall|a: int, b: int| 0 <= a < b < res.len() implies str_lt(res[a].0, res[b].0) by {
            if a == 0 {
                if b > 1 {
                    lemma_str_lt_trans(k, m[0].0, m[b - 1].0);
                }
            } else {
                assert(res[a] == m[a - 1] && res[b] == m[b - 1]);
            }
        }
        assert forall|i: int| 0 <= i < res.len() implies res[i].0 == k || exists|j: int|
            0 <= j < m.len() && m[j].0 == res[i].0 by {
            if i > 0 {
                assert(m[i - 1].0 == res[i].0);
            }
        }
    } else {
        lemma_str_lt_total(m[0].0, k);
        let t = m.drop_first();
        assert(keys_sorted(t)) by {
            assert forall|a: int, b: int| 0 <= a < b < t.len() implies str_lt(t[a].0, t[b].0) by {
                assert(t[a] == m[a + 1] && t[b] == m[b + 1]);
            }
        }
        lemma_insert_keyed_sorted(t, k, r);
        let tr = insert_keyed(t, k, r);
        assert(res == seq![m[0]] + tr);
        assert forall|i: int| 0 <= i < tr.len() implies str_lt(m[0].0, (#[trigger] tr[i]).0) by {
            if tr[i].0 != k {
                let j = choose|j: int| 0 <= j < t.len() && t[j].0 == tr[i].0;
                assert(t[j] == m[j + 1]);
            }
        }
        assert forall|a: int, b: int| 0 <= a < b < res.len() implies str_lt(res[a].0, res[b].0) by {
            if a == 0 {
                assert(res[b] == tr[b - 1]);
            } else {
                assert(res[a] == tr[a - 1] && res[b] == tr[b - 1]);
            }
        }
        assert forall|i: int| 0 <= i < res.len() implies res[i].0 == k || exists|j: int|
            0 <= j < m.len() && m[j].0 == res[i].0 by {
            if i == 0 {
                assert(m[0].0 == res[0].0);
            } else {
                assert(res[i] == tr[i - 1]);
                if tr[i - 1].0 != k {
                    let j = choose|j: int| 0 <= j < t.len() && t[j].0 == tr[i - 1].0;
                    assert(m[j + 1].0 == res[i].0);
                }
            }
        }
    }
}

/// The records by key are sorted by key, each key once.
proof fn lemma_keyed_sorted(rows: Seq<JsonV>, cols: Seq<Seq<char>>)
    ensures
        keys_sorted(keyed(rows, cols)),
    decreases rows.len(),
{
    if rows.len() > 0 {
        lemma_keyed_sorted(rows.drop_last(), cols);
        lemma_insert_keyed_sorted(keyed(rows.drop_last(), cols), key_text(key_of(rows.last(), cols)), rows.last());
    }
}

/// No record is missing when every key is present.
proof fn lemma_missing_none(m: Seq<(Seq<char>, JsonV)>, other: Seq<(Seq<char>, JsonV)>)
    requires
        forall|i: int| 0 <= i < m.len() ==> has_key(other, #[trigger] m[i].0),
    ensures
        missing_rows(m, other).len() == 0,
    decreases m.len(),
{
    if m.len() > 0 {
        assert(has_key(other, m[m.len() - 1].0));
        lemma_missing_none(m.drop_last(), other);
    }
}

/// A value compared with itself has no changed field.
proof fn lemma_no_changes_self<F: Fn(&Json, &Json) -> bool>(same: F, fields: Seq<Seq<char>>, v: JsonV, cols: Seq<Seq<char>>)
    requires
        reflexive(same),
    ensures
        changed_fields(same, fields, v, v, cols).len() == 0,
    decreases fields.len(),
{
    if fields.len() > 0 {
        lemma_no_changes_self(same, fields.drop_last(), v, cols);
        assert(same_says(same, field_or_null(v, fields.last()), field_or_null(v, fields.last())));
    }
}

/// No record is modified when each is compared with itself.
proof fn lemma_modified_none<F: Fn(&Json, &Json) -> bool>(
    same: F,
    m: Seq<(Seq<char>, JsonV)>,
    ks: Seq<(Seq<char>, JsonV)>,
    cols: Seq<Seq<char>>,
)
    requires
        reflexive(same),
        keys_sorted(ks),
        forall|i: int| 0 <= i < m.len() ==> exists|j: int| 0 <= j < ks.len() && #[trigger] m[i] == ks[j],
    ensures
        modified_rows(same, m, ks, cols).len() == 0,
    decreases m.len(),
{
    if m.len() > 0 {
        let e = m.last();
        assert(exists|j: int| 0 <= j < ks.len() && m[m.len() - 1] == ks[j]);
        let j = choose|j: int| 0 <= j < ks.len() && e == ks[j];
        let c = choose|i: int| 0 <= i < ks.len() && ks[i].0 == e.0;
        if c != j {
            lemma_str_lt_irrefl(e.0);
            if c < j {
                assert(str_lt(ks[c].0, ks[j].0));
            } else {
                assert(str_lt(ks[j].0, ks[c].0));
            }
        }
        assert(lookup_key(ks, e.0) == e.1);
        if e.1 is Object {
            lemma_no_changes_self(same, dedup(object_keys(e.1) + object_keys(e.1)), e.1, cols);
        }
        assert forall|i: int| 0 <= i < m.drop_last().len() implies exists|j: int|
            0 <= j < ks.len() && #[trigger] m.drop_last()[i] == ks[j] by {
            assert(m.drop_last()[i] == m[i]);
        }
        lemma_modified_none(same, m.drop_last(), ks, cols);
    }
}

/// A table compared with itself does not differ, when `same` calls every
/// value equal to itself.
pub proof fn lemma_table_diff_self<F: Fn(&Json, &Json) -> bool>(same: F, rows: Seq<JsonV>, cols: Seq<Seq<char>>)
    requires
        reflexive(same),
    ensures
        !tables_differ(same, rows, rows, cols),
{
    let ks = keyed(rows, cols);
    lemma_keyed_sorted(rows, cols);
    assert forall|i: int| 0 <= i < ks.len() implies has_key(ks, #[trigger] ks[i].0) by {
    }
    lemma_missing_none(ks, ks);
    assert forall|i: int| 0 <= i < ks.len() implies exists|j: int| 0 <= j < ks.len() && #[trigger] ks[i] == ks[j] by {
    }
    lemma_modified_none(same, ks, ks, cols);
}

/// No table differs between a snapshot and itself.
proof fn lemma_no_differing_tables<F: Fn(&Json, &Json) -> bool>(
    same: F,
    names: Seq<(Seq<char>, JsonV)>,
    tv: Seq<(Seq<char>, Seq<JsonV>)>,
)
    requires
        reflexive(same),
    ensures
        differing_tables(same, names, tv, tv).len() == 0,
    decreases names.len(),
{
    if names.len() > 0 {
        lemma_no_differing_tables(same, names.drop_last(), tv);
        let n = names.last().0;
        lemma_table_diff_self(same, table_rows(tv, n), table_primary_key(n));
    }
}

/// The diff of a snapshot with itself lists no table, when `same` calls
/// every value equal to itself.
pub proof fn lemma_snapshot_diff_self<F: Fn(&Json, &Json) -> bool>(
    d: SnapshotDiff,
    same: F,
    tv: Seq<(Seq<char>, Seq<JsonV>)>,
)
    requires
        reflexive(same),
        snapshot_diff_of(d, same, tv, tv),
    ensures
        d.tables@.len() == 0,
{
    lemma_no_differing_tables(same, sorted_names(names_of(tv) + names_of(tv)), tv);
}

/// Records that differ in a key column, both holding it, have different
/// primary keys.
proof fn lemma_key_differs(a: JsonV, b: JsonV, cols: Seq<Seq<char>>, j: int)
    requires
        0 <= j < cols.len(),
        json_get(a, cols[j]) is Some,
        json_get(b, cols[j]) is Some,
        json_get(a, cols[j]) != json_get(b, cols[j]),
    ensures
        key_of(a, cols) != key_of(b, cols),
{
    if cols.len() != 1 {
        let ka = key_of(a, cols)->Array_0;
        let kb = key_of(b, cols)->Array_0;
        assert(ka[j] != kb[j]);
    }
}

/// A diff tells apart the records that the original's tables tell apart:
/// two tag rows (of `task_tags`, `task_needed_tags` or `task_wanted_tags`)
/// with different task IDs or different tags, two dependencies that differ
/// in source, target or type, two attachments that differ in task or
/// position, and two tasks with different IDs, each have different primary
/// keys, so one is never matched against the other.
pub proof fn lemma_primary_keys_tell_apart(name: Seq<char>, a: JsonV, b: JsonV, column: Seq<char>)
    requires
        ((name == "task_tags"@ || name == "task_needed_tags"@ || name == "task_wanted_tags"@)
            && (column == "task_id"@ || column == "tag"@))
        || (name == "dependencies"@ && (column == "from_task_id"@ || column == "to_task_id"@ || column == "dep_type"@))
        || (name == "attachments"@ && (column == "task_id"@ || column == "order_index"@))
        || (name == "tasks"@ && column == "id"@),
        json_get(a, column) is Some,
        json_get(b, column) is Some,
        json_get(a, column) != json_get(b, column),
    ensures
        key_of(a, table_primary_key(name)) != key_of(b, table_primary_key(name)),
{
    reveal_strlit("tasks");
    reveal_strlit("dependencies");
    reveal_strlit("attachments");
    reveal_strlit("task_tags");
    reveal_strlit("task_needed_tags");
    reveal_strlit("task_wanted_tags");
    reveal_strlit("task_sequence");
    reveal_strlit("task_id");
    reveal_strlit("tag");
    reveal_strlit("from_task_id");
    reveal_strlit("to_task_id");
    reveal_strlit("dep_type");
    reveal_strlit("order_index");
    reveal_strlit("id");
    let cols = table_primary_key(name);
    if name == "tasks"@ {
        lemma_key_differs(a, b, cols, 0);
    } else if name == "dependencies"@ {
        assert("dependencies"@.len() != "tasks"@.len());
        if column == "from_task_id"@ {
            lemma_key_differs(a, b, cols, 0);
        } else if column == "to_task_id"@ {
            lemma_key_differs(a, b, cols, 1);
        } else {
            lemma_key_differs(a, b, cols, 2);
        }
    } else if name == "attachments"@ {
        assert("attachments"@.len() != "tasks"@.len());
        assert("attachments"@.len() != "dependencies"@.len());
        if column == "task_id"@ {
            lemma_key_differs(a, b, cols, 0);
        } else {
            lemma_key_differs(a, b, cols, 1);
        }
    } else {
        if name == "task_tags"@ {
            assert("task_tags"@.len() != "tasks"@.len());
            assert("task_tags"@.len() != "dependencies"@.len());
            assert("task_tags"@.len() != "attachments"@.len());
        } else if name == "task_needed_tags"@ {
            assert("task_needed_tags"@.len() != "tasks"@.len());
            assert("task_needed_tags"@.len() != "dependencies"@.len());
            assert("task_needed_tags"@.len() != "attachments"@.len());
        } else {
            assert("task_wanted_tags"@.len() != "tasks"@.len());
            assert("task_wanted_tags"@.len() != "dependencies"@.len());
            assert("task_wanted_tags"@.len() != "attachments"@.len());
        }
        assert(cols == seq!["task_id"@, "tag"@]);
        if column == "task_id"@ {
            lemma_key_differs(a, b, cols, 0);
        } else {
            lemma_key_differs(a, b, cols, 1);
        }
    }
}

} // verus!
