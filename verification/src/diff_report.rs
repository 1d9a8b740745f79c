//! The human-readable report of a snapshot diff.

use vstd::prelude::*;
use vstd::utf8::{encode_utf8, decode_utf8, is_char_boundary};
use vstd::string::StringSliceAdditionalSpecFns;
use crate::json::{Json, JsonV, json_get};
use crate::diff::{SnapshotDiff, TableDiff, ModifiedRecord, FieldChange, json_text_of, json_text, table_diff_empty, changes_total};
use crate::text::{dec_nat, concat_map, lemma_concat_map_take, lemma_concat_map_all, string_of, u64_to_dec, push_char};

verus! {

/// A title for a brief line: titles over forty bytes are cut to their first
/// 37 bytes and marked with `...`.
pub open spec fn title_brief(t: Seq<char>) -> Seq<char> {
    let b = encode_utf8(t);
    if b.len() > 40 {
        decode_utf8(b.take(37)) + "..."@
    } else {
        t
    }
}

/// A long title can be cut after its 37th byte (the cut falls between two
/// characters; otherwise the cut is refused).
pub open spec fn title_cut_ok(t: Seq<char>) -> bool {
    &&& encode_utf8(t).len() <= usize::MAX
    &&& encode_utf8(t).len() > 40 ==> is_char_boundary(encode_utf8(t), 37)
}

/// The title of a record as shown in a brief line, or nothing when the record
/// has no string title.
pub open spec fn title_piece(r: JsonV) -> Seq<char> {
    match json_get(r, "title"@) {
        Some(JsonV::Str(t)) => title_brief(t),
        _ => Seq::empty(),
    }
}

/// The record's title, if it has a string title, can be shown.
pub open spec fn brief_ok(r: JsonV) -> bool {
    match json_get(r, "title"@) {
        Some(JsonV::Str(t)) => title_cut_ok(t),
        _ => true,
    }
}

/// A record in brief: for an object its `id` (as JSON text) and its title in
/// parentheses when it has a non-empty one; any other value as JSON text.
pub open spec fn record_brief(r: JsonV) -> Seq<char> {
    match r {
        JsonV::Object(_) => {
            let id = match json_get(r, "id"@) {
                Some(v) => json_text_of(v),
                None => Seq::empty(),
            };
            let title = title_piece(r);
            if title.len() > 0 {
                id + " ("@ + title + ")"@
            } else {
                id
            }
        },
        _ => json_text_of(r),
    }
}

/// `n` copies of a character.
pub open spec fn repeated(c: char, n: nat) -> Seq<char> {
    Seq::new(n, |i: int| c)
}

/// The line of an added or removed record.
pub open spec fn row_line(sign: Seq<char>) -> spec_fn(Json) -> Seq<char> {
    |r: Json| "    "@ + sign + " "@ + record_brief(r@) + "\n"@
}

/// The block of added or removed records; nothing when there are none.
pub open spec fn rows_block(label: Seq<char>, sign: Seq<char>, rows: Seq<Json>) -> Seq<char> {
    if rows.len() == 0 {
        Seq::empty()
    } else {
        "  "@ + label + " ("@ + dec_nat(rows.len()) + "):\n"@ + concat_map(rows, row_line(sign))
    }
}

/// The line of a field change.
pub open spec fn change_line() -> spec_fn(FieldChange) -> Seq<char> {
    |c: FieldChange|
        "        "@ + c.field@ + ": "@ + json_text_of(c.old_value@) + " -> "@ + json_text_of(c.new_value@) + "\n"@
}

/// The lines of a modified record: its key, then one line per change.
pub open spec fn modified_piece() -> spec_fn(ModifiedRecord) -> Seq<char> {
    |m: ModifiedRecord| "    ~ "@ + json_text_of(m.key@) + "\n"@ + concat_map(m.changes@, change_line())
}

/// The block of modified records; nothing when there are none.
pub open spec fn modified_block(ms: Seq<ModifiedRecord>) -> Seq<char> {
    if ms.len() == 0 {
        Seq::empty()
    } else {
        "  Modified ("@ + dec_nat(ms.len()) + "):\n"@ + concat_map(ms, modified_piece())
    }
}

/// The section of a table; nothing for a table without changes.
pub open spec fn table_block() -> spec_fn((String, TableDiff)) -> Seq<char> {
    |t: (String, TableDiff)|
        if table_diff_empty(t.1) {
            Seq::empty()
        } else {
            "\nTable: "@ + t.0@ + "\n"@ + repeated('-', 40) + "\n"@ + rows_block("Added"@, "+"@, t.1.added@)
                + rows_block("Removed"@, "-"@, t.1.removed@) + modified_block(t.1.modified@)
        }
}

/// The whole report.
pub open spec fn diff_text(d: SnapshotDiff) -> Seq<char> {
    if forall|i: int| 0 <= i < d.tables@.len() ==> #[trigger] table_diff_empty(d.tables@[i].1) {
        "No differences found.\n"@
    } else {
        "Diff: "@ + d.source_label@ + " -> "@ + d.target_label@ + "\n"@ + repeated('=', 60) + "\n"@
            + concat_map(d.tables@, table_block()) + "\nSummary: "@ + dec_nat(changes_total(d.tables@) as nat)
            + " total changes\n"@
    }
}

/// The report can be written: the change count fits a `usize` and every
/// long title of an added or removed record can be cut.
pub open spec fn report_ok(d: SnapshotDiff) -> bool {
    &&& changes_total(d.tables@) <= usize::MAX
    &&& forall|i: int, k: int|
        0 <= i < d.tables@.len() && 0 <= k < d.tables@[i].1.added@.len() ==> brief_ok(
            (#[trigger] d.tables@[i].1.added@[k])@,
        )
    &&& forall|i: int, k: int|
        0 <= i < d.tables@.len() && 0 <= k < d.tables@[i].1.removed@.len() ==> brief_ok(
            (#[trigger] d.tables@[i].1.removed@[k])@,
        )
}

/// `n` copies of a character.
fn repeat_char(c: char, n: usize) -> (r: String)
    ensures
        r@ == repeated(c, n as nat),
{
    let mut s = string_of("");
    proof {
        reveal_strlit("");
    }
    let mut i: usize = 0;
    while i < n
        invariant
            i <= n,
            s@ == repeated(c, i as nat),
        decreases n - i,
    {
        push_char(&mut s, c);
        proof {
            assert(s@ =~= repeated(c, (i + 1) as nat));
        }
        i = i + 1;
    }
    s
}

/// A title cut for a brief line.
fn brief_title(t: &str) -> (r: String)
    requires
        title_cut_ok(t@),
    ensures
        r@ == title_brief(t@),
{
    proof {
        broadcast use vstd::utf8::encode_utf8_decode_utf8;
        assert(t.spec_bytes() == encode_utf8(t@));
    }
    if t.len() > 40 {
        let (head, _tail) = t.split_at(37);
        proof {
            assert(head.spec_bytes() =~= encode_utf8(t@).take(37));
            assert(decode_utf8(encode_utf8(head@)) == head@);
        }
        let mut s = string_of(head);
        s.append("...");
        s
    } else {
        string_of(t)
    }
}

/// A record in brief (see `record_brief`).
pub fn format_record_brief(record: &Json) -> (r: String)
    requires
        brief_ok(record@),
    ensures
        r@ == record_brief(record@),
{
    proof {
        reveal_strlit("");
    }
    match record {
        Json::Object(_) => {
            let id = match record.get("id") {
                Some(v) => json_text(v),
                None => string_of(""),
            };
            let title = match record.get("title") {
                Some(v) => match v.as_str() {
                    Some(t) => brief_title(t),
                    None => string_of(""),
                },
                None => string_of(""),
            };
            proof {
                assert(title@ == title_piece(record@));
            }
            if !title.as_str().is_empty() {
                let mut s = id;
                s.append(" (");
                s.append(title.as_str());
                s.append(")");
                s
            } else {
                id
            }
        },
        _ => json_text(record),
    }
}

/// The block of added or removed records.
fn rows_text(label: &str, sign: &str, rows: &Vec<Json>) -> (r: String)
    requires
        forall|k: int| 0 <= k < rows@.len() ==> brief_ok((#[trigger] rows@[k])@),
    ensures
        r@ == rows_block(label@, sign@, rows@),
{
    proof {
        reveal_strlit("");
    }
    if rows.len() == 0 {
        return string_of("");
    }
    let mut s = string_of("  ");
    s.append(label);
    s.append(" (");
    s.append(u64_to_dec(rows.len() as u64).as_str());
    s.append("):\n");
    let ghost head = s@;
    let ghost f = row_line(sign@);
    let mut i: usize = 0;
    while i < rows.len()
        invariant
            i <= rows@.len(),
            f == row_line(sign@),
            forall|k: int| 0 <= k < rows@.len() ==> brief_ok((#[trigger] rows@[k])@),
            s@ == head + concat_map(rows@.take(i as int), f),
        decreases rows@.len() - i,
    {
        proof {
            lemma_concat_map_take(rows@, i as int, f);
            assert(brief_ok(rows@[i as int]@));
        }
        let brief = format_record_brief(&rows[i]);
        s.append("    ");
        s.append(sign);
        s.append(" ");
        s.append(brief.as_str());
        s.append("\n");
        proof {
            assert(s@ =~= head + concat_map(rows@.take(i + 1), f));
        }
        i = i + 1;
    }
    proof {
        lemma_concat_map_all(rows@, f);
    }
    s
}

/// The lines of one modified record.
fn modified_text(m: &ModifiedRecord) -> (r: String)
    ensures
        r@ == (modified_piece())(*m),
{
    let mut s = string_of("    ~ ");
    s.append(json_text(&m.key).as_str());
    s.append("\n");
    let ghost head = s@;
    let ghost f = change_line();
    let mut i: usize = 0;
    while i < m.changes.len()
        invariant
            i <= m.changes@.len(),
            f == change_line(),
            s@ == head + concat_map(m.changes@.take(i as int), f),
        decreases m.changes@.len() - i,
    {
        proof {
            lemma_concat_map_take(m.changes@, i as int, f);
        }
        let c = &m.changes[i];
        s.append("        ");
        s.append(c.field.as_str());
        s.append(": ");
        s.append(json_text(&c.old_value).as_str());
        s.append(" -> ");
        s.append(json_text(&c.new_value).as_str());
        s.append("\n");
        proof {
            assert(s@ =~= head + concat_map(m.changes@.take(i + 1), f));
        }
        i = i + 1;
    }
    proof {
        lemma_concat_map_all(m.changes@, f);
    }
    s
}

/// The block of modified records.
fn modified_records_text(ms: &Vec<ModifiedRecord>) -> (r: String)
    ensures
        r@ == modified_block(ms@),
{
    proof {
        reveal_strlit("");
    }
    if ms.len() == 0 {
        return string_of("");
    }
    let mut s = string_of("  Modified (");
    s.append(u64_to_dec(ms.len() as u64).as_str());
    s.append("):\n");
    let ghost head = s@;
    let ghost f = modified_piece();
    let mut i: usize = 0;
    while i < ms.len()
        invariant
            i <= ms@.len(),
            f == modified_piece(),
            s@ == head + concat_map(ms@.take(i as int), f),
        decreases ms@.len() - i,
    {
        proof {
            lemma_concat_map_take(ms@, i as int, f);
        }
        let piece = modified_text(&ms[i]);
        s.append(piece.as_str());
        proof {
            assert(s@ =~= head + concat_map(ms@.take(i + 1), f));
        }
        i = i + 1;
    }
    proof {
        lemma_concat_map_all(ms@, f);
    }
    s
}

/// The section of one table.
fn table_text(name: &String, d: &TableDiff) -> (r: String)
    requires
        forall|k: int| 0 <= k < d.added@.len() ==> brief_ok((#[trigger] d.added@[k])@),
        forall|k: int| 0 <= k < d.removed@.len() ==> brief_ok((#[trigger] d.removed@[k])@),
    ensures
        r@ == (table_block())((*name, *d)),
{
    proof {
        reveal_strlit("");
    }
    if d.is_empty() {
        return string_of("");
    }
    let mut s = string_of("\nTable: ");
    s.append(name.as_str());
    s.append("\n");
    s.append(repeat_char('-', 40).as_str());
    s.append("\n");
    s.append(rows_text("Added", "+", &d.added).as_str());
    s.append(rows_text("Removed", "-", &d.removed).as_str());
    s.append(modified_records_text(&d.modified).as_str());
    s
}

impl SnapshotDiff {
    /// The human-readable report of the diff (see `diff_text`).
    pub fn to_string(&self) -> (r: String)
        requires
            report_ok(*self),
        ensures
            r@ == diff_text(*self),
    {
        if self.is_empty() {
            return string_of("No differences found.\n");
        }
        let mut s = string_of("Diff: ");
        s.append(self.source_label.as_str());
        s.append(" -> ");
        s.append(self.target_label.as_str());
        s.append("\n");
        s.append(repeat_char('=', 60).as_str());
        s.append("\n");
        let ghost head = s@;
        let ghost f = table_block();
        let mut i: usize = 0;
        while i < self.tables.len()
            invariant
                i <= self.tables@.len(),
                f == table_block(),
                report_ok(*self),
                s@ == head + concat_map(self.tables@.take(i as int), f),
            decreases self.tables@.len() - i,
        {
            proof {
                lemma_concat_map_take(self.tables@, i as int, f);
                assert forall|k: int| 0 <= k < self.tables@[i as int].1.added@.len() implies brief_ok(
                    (#[trigger] self.tables@[i as int].1.added@[k])@,
                ) by {}
                assert forall|k: int| 0 <= k < self.tables@[i as int].1.removed@.len() implies brief_ok(
                    (#[trigger] self.tables@[i as int].1.removed@[k])@,
                ) by {}
            }
            let piece = table_text(&self.tables[i].0, &self.tables[i].1);
            s.append(piece.as_str());
            proof {
                assert(s@ =~= head + concat_map(self.tables@.take(i + 1), f));
            }
            i = i + 1;
        }
        proof {
            lemma_concat_map_all(self.tables@, f);
        }
        s.append("\nSummary: ");
        let total = self.total_changes();
        s.append(u64_to_dec(total as u64).as_str());
        s.append(" total changes\n");
        s
    }
}

} // verus!
