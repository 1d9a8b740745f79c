//! A JSON value with a mathematical model, used for snapshot rows.

use vstd::prelude::*;
use crate::text::str_eq;

verus! {

/// A JSON value. Numbers that fit an `i64` are held as integers; any other
/// number is held by its JSON text. An object keeps its entries in order,
/// each key at most once.
#[derive(Debug)]
pub enum Json {
    Null,
    Bool(bool),
    Int(i64),
    Float(String),
    Str(String),
    Array(Vec<Json>),
    Object(Vec<(String, Json)>),
}

/// The model of a JSON value.
pub enum JsonV {
    Null,
    Bool(bool),
    Int(i64),
    Float(Seq<char>),
    Str(Seq<char>),
    Array(Seq<JsonV>),
    Object(Seq<(Seq<char>, JsonV)>),
}

/// The model of a value.
pub open spec fn json_view(j: Json) -> JsonV
    decreases j,
{
    match j {
        Json::Null => JsonV::Null,
        Json::Bool(b) => JsonV::Bool(b),
        Json::Int(i) => JsonV::Int(i),
        Json::Float(t) => JsonV::Float(t@),
        Json::Str(s) => JsonV::Str(s@),
        Json::Array(v) => JsonV::Array(
            Seq::new(v@.len(), |i: int| if 0 <= i < v@.len() { json_view(v@[i]) } else { JsonV::Null }),
        ),
        Json::Object(v) => JsonV::Object(
            Seq::new(
                v@.len(),
                |i: int| if 0 <= i < v@.len() { (v@[i].0@, json_view(v@[i].1)) } else { (Seq::empty(), JsonV::Null) },
            ),
        ),
    }
}

impl View for Json {
    type V = JsonV;

    open spec fn view(&self) -> JsonV {
        json_view(*self)
    }
}

/// A copy of a value with the same model.
pub fn copy_json(j: &Json) -> (r: Json)
    ensures
        r@ == j@,
    decreases j,
{
    match j {
        Json::Null => Json::Null,
        Json::Bool(b) => Json::Bool(*b),
        Json::Int(i) => Json::Int(*i),
        Json::Float(t) => Json::Float(t.clone()),
        Json::Str(t) => Json::Str(t.clone()),
        Json::Array(v) => {
            let mut out: Vec<Json> = Vec::new();
            let mut i: usize = 0;
            while i < v.len()
                invariant
                    i <= v@.len(),
                    *j == Json::Array(*v),
                    out@.len() == i,
                    forall|k: int| 0 <= k < i ==> (#[trigger] out@[k])@ == v@[k]@,
                decreases v@.len() - i,
            {
                                proof {
                    assert(decreases_to!(*j => (*j)->Array_0));
                    assert(decreases_to!(*v => v@));
                    assert(decreases_to!(v@ => v@[i as int]));
                }
                let c = copy_json(&v[i]);
                out.push(c);
                i = i + 1;
            }
            let r = Json::Array(out);
            proof {
                let x = json_view(r)->Array_0;
                let y = json_view(*j)->Array_0;
                assert forall|k: int| 0 <= k < x.len() implies x[k] == y[k] by {
                    assert(out@[k]@ == v@[k]@);
                }
                assert(x =~= y);
            }
            r
        }
        Json::Object(v) => {
            let mut out: Vec<(String, Json)> = Vec::new();
            let mut i: usize = 0;
            while i < v.len()
                invariant
                    i <= v@.len(),
                    *j == Json::Object(*v),
                    out@.len() == i,
                    forall|k: int| 0 <= k < i ==> (#[trigger] out@[k]).0@ == v@[k].0@ && out@[k].1@ == v@[k].1@,
                decreases v@.len() - i,
            {
                                proof {
                    assert(decreases_to!(*j => (*j)->Object_0));
                    assert(decreases_to!(*v => v@));
                    assert(decreases_to!(v@ => v@[i as int]));
                    assert(decreases_to!(v@[i as int] => v@[i as int].1));
                }
                let c = copy_json(&v[i].1);
                let k = v[i].0.clone();
                out.push((k, c));
                i = i + 1;
            }
            let r = Json::Object(out);
            proof {
                let x = json_view(r)->Object_0;
                let y = json_view(*j)->Object_0;
                assert forall|k: int| 0 <= k < x.len() implies x[k] == y[k] by {
                    assert(out@[k].0@ == v@[k].0@ && out@[k].1@ == v@[k].1@);
                }
                assert(x =~= y);
            }
            r
        }
    }
}

impl Clone for Json {
    fn clone(&self) -> (r: Self)
        ensures
            r@ == self@,
    {
        copy_json(self)
    }
}

/// Whether two values are the same value: the same variant and equal
/// contents, arrays element by element and objects entry by entry in order.
pub fn json_same(a: &Json, b: &Json) -> (r: bool)
    ensures
        r == (a@ == b@),
    decreases a,
{
    match (a, b) {
        (Json::Null, Json::Null) => true,
        (Json::Bool(x), Json::Bool(y)) => *x == *y,
        (Json::Int(x), Json::Int(y)) => *x == *y,
        (Json::Float(x), Json::Float(y)) => str_eq(x.as_str(), y.as_str()),
        (Json::Str(x), Json::Str(y)) => str_eq(x.as_str(), y.as_str()),
        (Json::Array(x), Json::Array(y)) => {
            let ghost xa = a@->Array_0;
            let ghost ya = b@->Array_0;
            if x.len() != y.len() {
                proof {
                    assert(xa.len() != ya.len());
                }
                return false;
            }
            let mut i: usize = 0;
            while i < x.len()
                invariant
                    i <= x@.len(),
                    x@.len() == y@.len(),
                    *a == Json::Array(*x),
                    *b == Json::Array(*y),
                    xa == a@->Array_0,
                    ya == b@->Array_0,
                    forall|k: int| 0 <= k < i ==> xa[k] == ya[k],
                decreases x@.len() - i,
            {
                proof {
                    assert(decreases_to!(*a => (*a)->Array_0));
                    assert(decreases_to!(*x => x@));
                    assert(decreases_to!(x@ => x@[i as int]));
                }
                if !json_same(&x[i], &y[i]) {
                    proof {
                        assert(xa[i as int] != ya[i as int]);
                    }
                    return false;
                }
                i = i + 1;
            }
            proof {
                assert(xa =~= ya);
            }
            true
        }
        (Json::Object(x), Json::Object(y)) => {
            let ghost xa = a@->Object_0;
            let ghost ya = b@->Object_0;
            if x.len() != y.len() {
                proof {
                    assert(xa.len() != ya.len());
                }
                return false;
            }
            let mut i: usize = 0;
            while i < x.len()
                invariant
                    i <= x@.len(),
                    x@.len() == y@.len(),
                    *a == Json::Object(*x),
                    *b == Json::Object(*y),
                    xa == a@->Object_0,
                    ya == b@->Object_0,
                    forall|k: int| 0 <= k < i ==> xa[k] == ya[k],
                decreases x@.len() - i,
            {
                proof {
                    assert(decreases_to!(*a => (*a)->Object_0));
                    assert(decreases_to!(*x => x@));
                    assert(decreases_to!(x@ => x@[i as int]));
                    assert(decreases_to!(x@[i as int] => x@[i as int].1));
                }
                if !str_eq(x[i].0.as_str(), y[i].0.as_str()) {
                    proof {
                        assert(xa[i as int].0 != ya[i as int].0);
                    }
                    return false;
                }
                if !json_same(&x[i].1, &y[i].1) {
                    proof {
                        assert(xa[i as int].1 != ya[i as int].1);
                    }
                    return false;
                }
                i = i + 1;
            }
            proof {
                assert(xa =~= ya);
            }
            true
        }
        _ => false,
    }
}

/// The value stored under `key` among the entries, the first such entry.
pub open spec fn entries_get(es: Seq<(Seq<char>, JsonV)>, key: Seq<char>) -> Option<JsonV>
    decreases es.len(),
{
    if es.len() == 0 {
        None
    } else if es[0].0 == key {
        Some(es[0].1)
    } else {
        entries_get(es.drop_first(), key)
    }
}

/// The field `key` of an object; `None` for a missing field or a non-object.
pub open spec fn json_get(j: JsonV, key: Seq<char>) -> Option<JsonV> {
    match j {
        JsonV::Object(es) => entries_get(es, key),
        _ => None,
    }
}

/// The text of a string value.
pub open spec fn json_as_str(j: JsonV) -> Option<Seq<char>> {
    match j {
        JsonV::Str(s) => Some(s),
        _ => None,
    }
}

/// The text of the string field `key`, if the field exists and is a string.
pub open spec fn json_str_field(j: JsonV, key: Seq<char>) -> Option<Seq<char>> {
    match json_get(j, key) {
        Some(v) => json_as_str(v),
        None => None,
    }
}

/// The entries with `key` set to `v`: the first entry with that key gets the
/// new value, or a new entry is added at the end.
pub open spec fn entries_set(es: Seq<(Seq<char>, JsonV)>, key: Seq<char>, v: JsonV) -> Seq<(Seq<char>, JsonV)>
    decreases es.len(),
{
    if es.len() == 0 {
        seq![(key, v)]
    } else if es[0].0 == key {
        es.update(0, (key, v))
    } else {
        seq![es[0]] + entries_set(es.drop_first(), key, v)
    }
}

/// An object with field `key` set to `v`; other values are left as they are.
pub open spec fn json_set(j: JsonV, key: Seq<char>, v: JsonV) -> JsonV {
    match j {
        JsonV::Object(es) => JsonV::Object(entries_set(es, key, v)),
        _ => j,
    }
}

/// Position of the first entry with the key, if any.
pub open spec fn first_key_index(es: Seq<(Seq<char>, JsonV)>, key: Seq<char>) -> Option<int>
    decreases es.len(),
{
    if es.len() == 0 {
        None
    } else if es[0].0 == key {
        Some(0)
    } else {
        match first_key_index(es.drop_first(), key) {
            Some(i) => Some(i + 1),
            None => None,
        }
    }
}

proof fn lemma_first_key_index(es: Seq<(Seq<char>, JsonV)>, key: Seq<char>)
    ensures
        match first_key_index(es, key) {
            Some(i) => 0 <= i < es.len() && es[i].0 == key && (forall|k: int| 0 <= k < i ==> es[k].0 != key)
                && entries_get(es, key) == Some(es[i].1)
                && entries_set(es, key, JsonV::Null).len() == es.len(),
            None => (forall|k: int| 0 <= k < es.len() ==> es[k].0 != key) && entries_get(es, key) is None,
        },
    decreases es.len(),
{
    if es.len() > 0 {
        lemma_first_key_index(es.drop_first(), key);
        match first_key_index(es.drop_first(), key) {
            Some(i) => {
                assert forall|k: int| 1 <= k < i + 1 implies es[k].0 != key by {
                    assert(es[k] == es.drop_first()[k - 1]);
                }
            }
            None => {
                assert forall|k: int| 1 <= k < es.len() implies es[k].0 != key by {
                    assert(es[k] == es.drop_first()[k - 1]);
                }
            }
        }
    }
}

proof fn lemma_entries_set_at(es: Seq<(Seq<char>, JsonV)>, key: Seq<char>, v: JsonV, i: int)
    requires
        0 <= i < es.len(),
        es[i].0 == key,
        forall|k: int| 0 <= k < i ==> es[k].0 != key,
    ensures
        entries_set(es, key, v) == es.update(i, (key, v)),
    decreases es.len(),
{
    if i > 0 {
        lemma_entries_set_at(es.drop_first(), key, v, i - 1);
        assert(seq![es[0]] + es.drop_first().update(i - 1, (key, v)) =~= es.update(i, (key, v)));
    }
}

proof fn lemma_entries_set_absent(es: Seq<(Seq<char>, JsonV)>, key: Seq<char>, v: JsonV)
    requires
        forall|k: int| 0 <= k < es.len() ==> es[k].0 != key,
    ensures
        entries_set(es, key, v) == es.push((key, v)),
    decreases es.len(),
{
    if es.len() > 0 {
        lemma_entries_set_absent(es.drop_first(), key, v);
        assert(seq![es[0]] + es.drop_first().push((key, v)) =~= es.push((key, v)));
    }
}

/// Reading a field after setting one: the set field gives the new value,
/// any other field what it held before.
pub proof fn lemma_entries_get_set(es: Seq<(Seq<char>, JsonV)>, key: Seq<char>, v: JsonV, k: Seq<char>)
    ensures
        entries_get(entries_set(es, key, v), k) == if k == key { Some(v) } else { entries_get(es, k) },
    decreases es.len(),
{
    let r = entries_set(es, key, v);
    if es.len() == 0 {
        assert(r == seq![(key, v)]);
        assert(r.drop_first() =~= Seq::<(Seq<char>, JsonV)>::empty());
        assert(r[0].0 == key);
        assert(entries_get(r.drop_first(), k) is None);
        assert(entries_get(es, k) is None);
    } else if es[0].0 == key {
        assert(r == es.update(0, (key, v)));
        assert(r.drop_first() =~= es.drop_first());
        assert(r[0] == (key, v));
        assert(entries_get(es, k) == if es[0].0 == k { Some(es[0].1) } else { entries_get(es.drop_first(), k) });
        assert(entries_get(r, k) == if r[0].0 == k { Some(r[0].1) } else { entries_get(r.drop_first(), k) });
    } else {
        lemma_entries_get_set(es.drop_first(), key, v, k);
        assert(r == seq![es[0]] + entries_set(es.drop_first(), key, v));
        assert(r.drop_first() =~= entries_set(es.drop_first(), key, v));
        assert(r[0] == es[0]);
        assert(entries_get(es, k) == if es[0].0 == k { Some(es[0].1) } else { entries_get(es.drop_first(), k) });
        assert(entries_get(r, k) == if r[0].0 == k { Some(r[0].1) } else { entries_get(r.drop_first(), k) });
    }
}

/// Setting a field of an object keeps it an object; reading a field after
/// setting one gives the new value for that field and the old value for
/// any other.
pub proof fn lemma_json_get_set(j: JsonV, key: Seq<char>, v: JsonV, k: Seq<char>)
    requires
        j is Object,
    ensures
        json_set(j, key, v) is Object,
        json_get(json_set(j, key, v), k) == if k == key { Some(v) } else { json_get(j, k) },
{
    lemma_entries_get_set(j->Object_0, key, v, k);
}

/// The entries with `key` set to `value`.
fn set_entry(entries: Vec<(String, Json)>, key: &str, value: Json) -> (r: Vec<(String, Json)>)
    ensures
        json_view(Json::Object(r))->Object_0 == entries_set(json_view(Json::Object(entries))->Object_0, key@, value@),
{
    let ghost ev = json_view(Json::Object(entries))->Object_0;
    let mut es = entries;
    let ghost orig = es;
    let n = es.len();
    let mut i: usize = 0;
    while i < n
        invariant
            n == es@.len(),
            i <= n,
            es == orig,
            orig == entries,
            ev == json_view(Json::Object(entries))->Object_0,
            ev.len() == es@.len(),
            forall|k: int| 0 <= k < es@.len() ==> ev[k] == (es@[k].0@, es@[k].1@),
            forall|k: int| 0 <= k < i ==> ev[k].0 != key@,
        decreases n - i,
    {
        if str_eq(es[i].0.as_str(), key) {
            let ghost before = es@;
            es.set(i, (String::from_str(key), value));
            proof {
                lemma_entries_set_at(ev, key@, value@, i as int);
                let nv = json_view(Json::Object(es))->Object_0;
                assert forall|k: int| 0 <= k < nv.len() implies nv[k] == ev.update(i as int, (key@, value@))[k] by {
                    if k != i as int {
                        assert(es@[k] == before[k]);
                    }
                }
                assert(nv =~= ev.update(i as int, (key@, value@)));
            }
            return es;
        }
        i = i + 1;
    }
    let ghost before = es@;
    es.push((String::from_str(key), value));
    proof {
        lemma_entries_set_absent(ev, key@, value@);
        let nv = json_view(Json::Object(es))->Object_0;
        assert forall|k: int| 0 <= k < nv.len() implies nv[k] == ev.push((key@, value@))[k] by {
            if k < before.len() {
                assert(es@[k] == before[k]);
            }
        }
        assert(nv =~= ev.push((key@, value@)));
    }
    es
}

impl Json {
    /// The field `key` of an object, if present.
    pub fn get(&self, key: &str) -> (r: Option<&Json>)
        ensures
            match r {
                Some(v) => json_get(self@, key@) == Some(v@),
                None => json_get(self@, key@) is None,
            },
    {
        match self {
            Json::Object(es) => {
                let ghost ev = json_view(*self)->Object_0;
                proof {
                    lemma_first_key_index(ev, key@);
                    assert(ev.len() == es@.len());
                }
                let mut i: usize = 0;
                while i < es.len()
                    invariant
                        i <= es@.len(),
                        ev.len() == es@.len(),
                        *self == Json::Object(*es),
                        ev == json_view(*self)->Object_0,
                        forall|k: int| 0 <= k < es@.len() ==> ev[k] == (es@[k].0@, es@[k].1@),
                        forall|k: int| 0 <= k < i ==> ev[k].0 != key@,
                    decreases es@.len() - i,
                {
                    if str_eq(es[i].0.as_str(), key) {
                        proof {
                            lemma_first_key_index(ev, key@);
                            match first_key_index(ev, key@) {
                                Some(j) => {
                                    if j != i as int {
                                        assert(ev[i as int].0 == key@);
                                    }
                                }
                                None => {
                                    assert(ev[i as int].0 == key@);
                                }
                            }
                        }
                        return Some(&es[i].1);
                    }
                    i = i + 1;
                }
                proof {
                    match first_key_index(ev, key@) {
                        Some(j) => {
                            assert(ev[j].0 != key@);
                        }
                        None => {}
                    }
                }
                None
            }
            _ => None,
        }
    }

    /// The text of a string value.
    pub fn as_str(&self) -> (r: Option<&str>)
        ensures
            match r {
                Some(s) => json_as_str(self@) == Some(s@),
                None => json_as_str(self@) is None,
            },
    {
        match self {
            Json::Str(s) => Some(s.as_str()),
            _ => None,
        }
    }

    /// The text of the string field `key`, if present and a string.
    pub fn get_str(&self, key: &str) -> (r: Option<&str>)
        ensures
            match r {
                Some(s) => json_str_field(self@, key@) == Some(s@),
                None => json_str_field(self@, key@) is None,
            },
    {
        match self.get(key) {
            Some(v) => v.as_str(),
            None => None,
        }
    }

    /// Sets field `key` of an object to `value`; a value that is not an object
    /// is left as it is.
    pub fn set_field(&mut self, key: &str, value: Json)
        ensures
            final(self)@ == json_set(old(self)@, key@, value@),
    {
        let mut taken = Json::Null;
        std::mem::swap(&mut taken, self);
        let result = match taken {
            Json::Object(es) => Json::Object(set_entry(es, key, value)),
            other => other,
        };
        *self = result;
    }
}

/// The integer of a value that is an integer.
pub open spec fn json_as_i64(j: JsonV) -> Option<i64> {
    match j {
        JsonV::Int(i) => Some(i),
        _ => None,
    }
}

/// The field `key` when it is present and not null.
pub open spec fn non_null_field(j: JsonV, key: Seq<char>) -> Option<JsonV> {
    match json_get(j, key) {
        Some(JsonV::Null) => None,
        other => other,
    }
}

impl Json {
    /// The integer of an integer value.
    pub fn as_i64(&self) -> (r: Option<i64>)
        ensures
            r == json_as_i64(self@),
    {
        match self {
            Json::Int(i) => Some(*i),
            _ => None,
        }
    }

    /// A required string field; the error names the field.
    pub fn get_string(&self, key: &str) -> (r: Result<String, String>)
        ensures
            match r {
                Ok(s) => json_str_field(self@, key@) == Some(s@),
                Err(m) => json_str_field(self@, key@) is None && m@ == "Missing or invalid string field: "@ + key@,
            },
    {
        match self.get_str(key) {
            Some(s) => Ok(s.to_owned()),
            None => {
                let mut m = String::from_str("Missing or invalid string field: ");
                m.append(key);
                Err(m)
            },
        }
    }

    /// An optional string field: `None` when missing, null or not a string.
    pub fn get_opt_string(&self, key: &str) -> (r: Option<String>)
        ensures
            crate::error::opt_view(r) == (match non_null_field(self@, key@) {
                Some(v) => json_as_str(v),
                None => None,
            }),
    {
        match self.get(key) {
            Some(v) => match v {
                Json::Null => None,
                _ => match v.as_str() {
                    Some(s) => Some(s.to_owned()),
                    None => None,
                },
            },
            None => None,
        }
    }

    /// A required integer field; the error names the field.
    pub fn get_i64(&self, key: &str) -> (r: Result<i64, String>)
        ensures
            match r {
                Ok(i) => (match json_get(self@, key@) {
                    Some(v) => json_as_i64(v),
                    None => None,
                }) == Some(i),
                Err(m) => (match json_get(self@, key@) {
                    Some(v) => json_as_i64(v),
                    None => None,
                }) is None && m@ == "Missing or invalid i64 field: "@ + key@,
            },
    {
        match self.get(key) {
            Some(v) => match v.as_i64() {
                Some(i) => {
                    return Ok(i);
                },
                None => {},
            },
            None => {},
        }
        let mut m = String::from_str("Missing or invalid i64 field: ");
        m.append(key);
        Err(m)
    }

    /// An optional integer field: `None` when missing, null or not an
    /// integer.
    pub fn get_opt_i64(&self, key: &str) -> (r: Option<i64>)
        ensures
            r == (match non_null_field(self@, key@) {
                Some(v) => json_as_i64(v),
                None => None,
            }),
    {
        match self.get(key) {
            Some(v) => v.as_i64(),
            None => None,
        }
    }

    /// An integer field, 0 when missing, null or not an integer.
    pub fn get_i64_or_default(&self, key: &str) -> (r: i64)
        ensures
            r == (match non_null_field(self@, key@) {
                Some(v) => match json_as_i64(v) {
                    Some(i) => i,
                    None => 0,
                },
                None => 0,
            }),
    {
        match self.get_opt_i64(key) {
            Some(i) => i,
            None => 0,
        }
    }

    /// A required integer field cut to 32 bits (as `as i32` does); the
    /// error names the field.
    pub fn get_i32(&self, key: &str) -> (r: Result<i32, String>)
        ensures
            match r {
                Ok(i) => exists|w: i64| (match json_get(self@, key@) {
                    Some(v) => json_as_i64(v),
                    None => None,
                }) == Some(w) && i == w as i32,
                Err(m) => (match json_get(self@, key@) {
                    Some(v) => json_as_i64(v),
                    None => None,
                }) is None && m@ == "Missing or invalid i32 field: "@ + key@,
            },
    {
        match self.get(key) {
            Some(v) => match v.as_i64() {
                Some(i) => {
                    return Ok(#[verifier::truncate] (i as i32));
                },
                None => {},
            },
            None => {},
        }
        let mut m = String::from_str("Missing or invalid i32 field: ");
        m.append(key);
        Err(m)
    }

    /// An optional integer field cut to 32 bits: `None` when missing, null
    /// or not an integer.
    pub fn get_opt_i32(&self, key: &str) -> (r: Option<i32>)
        ensures
            r == (match non_null_field(self@, key@) {
                Some(v) => match json_as_i64(v) {
                    Some(w) => Some(w as i32),
                    None => None,
                },
                None => None,
            }),
    {
        match self.get_opt_i64(key) {
            Some(w) => Some(#[verifier::truncate] (w as i32)),
            None => None,
        }
    }
}

} // verus!
