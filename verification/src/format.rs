//! Markdown renderings of tasks, task lists, task trees, workers,
//! attachments and scan results, and the title a task takes from its
//! description.

use vstd::prelude::*;
use vstd::utf8::{encode_utf8, decode_utf8, is_char_boundary};
use vstd::string::StringSliceAdditionalSpecFns;
use crate::text::{
    dec_int, dec_nat, join, views, concat_map, lemma_concat_map_take, lemma_concat_map_all,
    lowercase_of, char_uppercase_of, to_lowercase, push_char, push_char_uppercase, str_eq,
    string_of, i64_to_dec, u64_to_dec, join_strings, uppercase_of, to_uppercase, lemma_views_push,
};
use crate::types::{Task, TaskTree, ScanResult, StatesConfig, StateDefinition, WorkerInfo, AttachmentMeta, PRIORITY_DEFAULT, mentions};

verus! {

/// Output format for query results.
#[derive(Debug, Clone, Copy, PartialEq, Eq, Structural)]
pub enum OutputFormat {
    Json,
    Markdown,
}

impl Default for OutputFormat {
    fn default() -> (r: Self)
        ensures
            r == OutputFormat::Json,
    {
        OutputFormat::Json
    }
}

/// The format named by an already lower-cased name.
pub open spec fn format_named(lower: Seq<char>) -> Option<OutputFormat> {
    if lower == "json"@ {
        Some(OutputFormat::Json)
    } else if lower == "markdown"@ || lower == "md"@ {
        Some(OutputFormat::Markdown)
    } else {
        None
    }
}

/// The format named by a lower-cased name: `json`, or `markdown` / `md`.
pub fn output_format_from_lowercase(lower: &str) -> (r: Option<OutputFormat>)
    ensures
        r == format_named(lower@),
{
    if str_eq(lower, "json") {
        Some(OutputFormat::Json)
    } else if str_eq(lower, "markdown") || str_eq(lower, "md") {
        Some(OutputFormat::Markdown)
    } else {
        None
    }
}

impl OutputFormat {
    /// The format named by `s`, ignoring case.
    pub fn from_str(s: &str) -> (r: Option<Self>)
        ensures
            r == format_named(lowercase_of(s@)),
    {
        let lower = to_lowercase(s);
        output_format_from_lowercase(lower.as_str())
    }
}

/// `pre`, the value and `post` when there is a value; nothing otherwise.
pub open spec fn opt_piece(o: Option<String>, pre: Seq<char>, post: Seq<char>) -> Seq<char> {
    match o {
        Some(v) => pre + v@ + post,
        None => ""@,
    }
}

/// A string holding `opt_piece`.
fn opt_string(o: &Option<String>, pre: &str, post: &str) -> (r: String)
    ensures
        r@ == opt_piece(*o, pre@, post@),
{
    match o {
        Some(v) => {
            let mut s = string_of(pre);
            s.append(v.as_str());
            s.append(post);
            s
        }
        None => string_of(""),
    }
}

/// `pre`, the number and `post` when there is a number; nothing otherwise.
pub open spec fn opt_num_piece(o: Option<i32>, pre: Seq<char>, post: Seq<char>) -> Seq<char> {
    match o {
        Some(v) => pre + dec_int(v as int) + post,
        None => ""@,
    }
}

/// A string holding `opt_num_piece`.
fn opt_num_string(o: Option<i32>, pre: &str, post: &str) -> (r: String)
    ensures
        r@ == opt_num_piece(o, pre@, post@),
{
    match o {
        Some(v) => {
            let mut s = string_of(pre);
            s.append(i64_to_dec(v as i64).as_str());
            s.append(post);
            s
        }
        None => string_of(""),
    }
}

/// The IDs each wrapped in backticks.
pub open spec fn backticked(ids: Seq<Seq<char>>) -> Seq<Seq<char>> {
    Seq::new(ids.len(), |i: int| "`"@ + ids[i] + "`"@)
}

/// The blocked-by line of a task, when it has blockers.
pub open spec fn blocked_by_piece(blocked_by: Seq<Seq<char>>) -> Seq<char> {
    if blocked_by.len() > 0 {
        "- **blocked_by**: "@ + join(backticked(blocked_by), ", "@) + "\n"@
    } else {
        ""@
    }
}

/// A single task as markdown.
pub open spec fn task_markdown(t: Task, blocked_by: Seq<Seq<char>>) -> Seq<char> {
    "## Task: "@ + t.title@ + "\n"@
        + "- **id**: `"@ + t.id@ + "`\n"@
        + "- **status**: "@ + t.status@ + "\n"@
        + "- **priority**: "@ + dec_int(t.priority as int) + "\n"@
        + opt_piece(t.owner_agent, "- **owner**: "@, "\n"@)
        + blocked_by_piece(blocked_by)
        + opt_num_piece(t.points, "- **points**: "@, "\n"@)
        + opt_piece(t.current_thought, "- **thought**: "@, "\n"@)
        + opt_piece(t.description, "\n### Description\n"@, "\n"@)
}

/// A string holding `blocked_by_piece`.
fn blocked_by_string(blocked_by: &[String]) -> (r: String)
    ensures
        r@ == blocked_by_piece(views(blocked_by@)),
{
    if blocked_by.len() == 0 {
        return string_of("");
    }
    let ghost ids = views(blocked_by@);
    let mut parts: Vec<String> = Vec::new();
    let mut i: usize = 0;
    while i < blocked_by.len()
        invariant
            i <= blocked_by@.len(),
            ids == views(blocked_by@),
            parts@.len() == i,
            forall|k: int| 0 <= k < i ==> (#[trigger] parts@[k])@ == backticked(ids)[k],
        decreases blocked_by@.len() - i,
    {
        let mut p = string_of("`");
        p.append(blocked_by[i].as_str());
        p.append("`");
        proof {
            assert(ids[i as int] == blocked_by@[i as int]@);
        }
        parts.push(p);
        i = i + 1;
    }
    proof {
        assert(views(parts@) =~= backticked(ids));
    }
    let joined = join_strings(parts.as_slice(), ", ");
    let mut s = string_of("- **blocked_by**: ");
    s.append(joined.as_str());
    s.append("\n");
    s
}

/// Format a single task as markdown.
pub fn format_task_markdown(task: &Task, blocked_by: &[String]) -> (r: String)
    ensures
        r@ == task_markdown(*task, views(blocked_by@)),
{
    let mut md = string_of("## Task: ");
    md.append(task.title.as_str());
    md.append("\n");
    md.append("- **id**: `");
    md.append(task.id.as_str());
    md.append("`\n");
    md.append("- **status**: ");
    md.append(task.status.as_str());
    md.append("\n");
    md.append("- **priority**: ");
    md.append(i64_to_dec(task.priority as i64).as_str());
    md.append("\n");
    md.append(opt_string(&task.owner_agent, "- **owner**: ", "\n").as_str());
    md.append(blocked_by_string(blocked_by).as_str());
    md.append(opt_num_string(task.points, "- **points**: ", "\n").as_str());
    md.append(opt_string(&task.current_thought, "- **thought**: ", "\n").as_str());
    md.append(opt_string(&task.description, "\n### Description\n", "\n").as_str());
    md
}

/// The display piece for the `i`-th character of a state name: a space for
/// an underscore, the upper case of a character that starts a word, and the
/// character itself otherwise.
pub open spec fn name_piece(s: Seq<char>, i: int) -> Seq<char> {
    if s[i] == '_' {
        seq![' ']
    } else if i == 0 || s[i - 1] == '_' {
        char_uppercase_of(s[i])
    } else {
        seq![s[i]]
    }
}

/// The display form of the first `n` characters of a state name.
pub open spec fn state_name_upto(s: Seq<char>, n: int) -> Seq<char>
    decreases n,
{
    if n <= 0 {
        Seq::empty()
    } else {
        state_name_upto(s, n - 1) + name_piece(s, n - 1)
    }
}

/// The display form of a state name: the words between underscores, each
/// with its first character in upper case, joined by spaces.
pub open spec fn state_name(s: Seq<char>) -> Seq<char> {
    state_name_upto(s, s.len() as int)
}

/// Format a state name for display (capitalize, replace underscores with spaces).
fn format_state_name(state: &str) -> (r: String)
    ensures
        r@ == state_name(state@),
{
    let n = state.unicode_len();
    let mut out = String::new();
    let mut i: usize = 0;
    let mut prev_underscore = true;
    while i < n
        invariant
            n == state@.len(),
            i <= n,
            out@ == state_name_upto(state@, i as int),
            prev_underscore == (i == 0 || state@[i - 1] == '_'),
        decreases n - i,
    {
        let c = state.get_char(i);
        let ghost before = out@;
        if c == '_' {
            push_char(&mut out, ' ');
            prev_underscore = true;
        } else if prev_underscore {
            push_char_uppercase(&mut out, c);
            prev_underscore = false;
        } else {
            push_char(&mut out, c);
            prev_underscore = false;
        }
        proof {
            assert(out@ =~= before + name_piece(state@, i as int));
        }
        i = i + 1;
    }
    out
}

/// The byte length at which a task ID is cut for display: eight bytes, or
/// the whole ID when it is shorter.
pub open spec fn short_len(id: Seq<char>) -> int {
    let n = encode_utf8(id).len();
    if n < 8 { n as int } else { 8 }
}

/// The ID's byte length fits in a `usize` and the cut falls between two
/// characters (otherwise the cut is refused).
pub open spec fn id_cut_ok(id: Seq<char>) -> bool {
    &&& encode_utf8(id).len() <= usize::MAX
    &&& is_char_boundary(encode_utf8(id), short_len(id))
}

/// The first eight bytes of a task ID, as characters.
pub open spec fn short_id(id: Seq<char>) -> Seq<char> {
    decode_utf8(encode_utf8(id).take(short_len(id)))
}

/// The ID of the task cut to its first eight bytes.
fn short_task_id(id: &str) -> (r: &str)
    requires
        id_cut_ok(id@),
    ensures
        r@ == short_id(id@),
{
    let n = id.len();
    let k: usize = if n < 8 { n } else { 8 };
    let (head, _tail) = id.split_at(k);
    proof {
        broadcast use vstd::utf8::encode_utf8_decode_utf8;
        assert(head.spec_bytes() =~= encode_utf8(id@).take(k as int));
        assert(decode_utf8(encode_utf8(head@)) == head@);
    }
    head
}

/// The priority marker of a task: `!!! ` for a positive priority.
pub open spec fn priority_marker(t: Task) -> Seq<char> {
    if t.priority > 0 { "!!! "@ } else { ""@ }
}

/// The blocked-by count of a short task line, when there are blockers.
pub open spec fn blocked_count_piece(blocked: nat) -> Seq<char> {
    if blocked > 0 { " [blocked by "@ + dec_nat(blocked) + "]"@ } else { ""@ }
}

/// A task in short form for lists.
pub open spec fn task_short(t: Task, blocked: nat) -> Seq<char> {
    "- "@ + priority_marker(t) + t.title@ + " `"@ + short_id(t.id@) + "`"@
        + opt_piece(t.owner_agent, " @"@, ""@)
        + blocked_count_piece(blocked)
        + opt_piece(t.current_thought, " - _"@, "_"@)
        + "\n"@
}

/// Format a task in short form for lists.
fn format_task_short(task: &Task, blocked_by: &[String]) -> (r: String)
    requires
        id_cut_ok(task.id@),
    ensures
        r@ == task_short(*task, blocked_by@.len()),
{
    let marker: &str = if task.priority > 0 { "!!! " } else { "" };
    let blocked = if blocked_by.len() == 0 {
        string_of("")
    } else {
        let mut b = string_of(" [blocked by ");
        b.append(u64_to_dec(blocked_by.len() as u64).as_str());
        b.append("]");
        b
    };
    let mut md = string_of("- ");
    md.append(marker);
    md.append(task.title.as_str());
    md.append(" `");
    md.append(short_task_id(task.id.as_str()));
    md.append("`");
    md.append(opt_string(&task.owner_agent, " @", "").as_str());
    md.append(blocked.as_str());
    md.append(opt_string(&task.current_thought, " - _", "_").as_str());
    md.append("\n");
    md
}

/// The short line of a listed task when it has the status, nothing otherwise.
pub open spec fn status_line(s: Seq<char>) -> spec_fn((Task, Vec<String>)) -> Seq<char> {
    |e: (Task, Vec<String>)| if e.0.status@ == s { task_short(e.0, e.1@.len()) } else { ""@ }
}

/// Some listed task has the status.
pub open spec fn has_status(tasks: Seq<(Task, Vec<String>)>, s: Seq<char>) -> bool {
    exists|i: int| 0 <= i < tasks.len() && tasks[i].0.status@ == s
}

/// The section of the tasks with the status: a heading and their short
/// lines, or nothing when no task has the status.
pub open spec fn section(tasks: Seq<(Task, Vec<String>)>, s: Seq<char>) -> Seq<char> {
    if has_status(tasks, s) {
        "## "@ + state_name(s) + "\n\n"@ + concat_map(tasks, status_line(s)) + "\n"@
    } else {
        ""@
    }
}

/// The section of a blocking state other than the initial one.
pub open spec fn blocking_section(tasks: Seq<(Task, Vec<String>)>, initial: Seq<char>) -> spec_fn(String) -> Seq<char> {
    |b: String| if b@ != initial { section(tasks, b@) } else { ""@ }
}

/// The section of a state that is neither blocking nor the initial one.
pub open spec fn other_section(tasks: Seq<(Task, Vec<String>)>, cfg: StatesConfig) -> spec_fn(StateDefinition) -> Seq<char> {
    |d: StateDefinition| if !mentions(cfg.blocking_states@, d.name@) && d.name@ != cfg.initial@ { section(tasks, d.name@) } else { ""@ }
}

/// A list of tasks as markdown: the blocking states first (but the initial
/// one), then the initial state, then the other configured states.
pub open spec fn tasks_markdown(tasks: Seq<(Task, Vec<String>)>, cfg: StatesConfig) -> Seq<char> {
    "# Tasks ("@ + dec_nat(tasks.len()) + ")\n\n"@
        + concat_map(cfg.blocking_states@, blocking_section(tasks, cfg.initial@))
        + section(tasks, cfg.initial@)
        + concat_map(cfg.states@, other_section(tasks, cfg))
}

/// Every task ID of the list can be cut for display.
pub open spec fn ids_cut_ok(tasks: Seq<(Task, Vec<String>)>) -> bool {
    forall|i: int| 0 <= i < tasks.len() ==> id_cut_ok((#[trigger] tasks[i]).0.id@)
}

/// A string holding `section`.
fn section_string(tasks: &[(Task, Vec<String>)], state: &str) -> (r: String)
    requires
        ids_cut_ok(tasks@),
    ensures
        r@ == section(tasks@, state@),
{
    let mut found = false;
    let mut j: usize = 0;
    while j < tasks.len()
        invariant
            j <= tasks@.len(),
            found == exists|k: int| 0 <= k < j && tasks@[k].0.status@ == state@,
        decreases tasks@.len() - j,
    {
        if str_eq(tasks[j].0.status.as_str(), state) {
            found = true;
        }
        j = j + 1;
    }
    if !found {
        return string_of("");
    }
    let ghost f = status_line(state@);
    let mut body = String::new();
    let mut i: usize = 0;
    while i < tasks.len()
        invariant
            i <= tasks@.len(),
            ids_cut_ok(tasks@),
            f == status_line(state@),
            body@ == concat_map(tasks@.take(i as int), f),
        decreases tasks@.len() - i,
    {
        proof {
            lemma_concat_map_take(tasks@, i as int, f);
            assert(id_cut_ok(tasks@[i as int].0.id@));
        }
        let piece = if str_eq(tasks[i].0.status.as_str(), state) {
            format_task_short(&tasks[i].0, tasks[i].1.as_slice())
        } else {
            string_of("")
        };
        body.append(piece.as_str());
        i = i + 1;
    }
    proof {
        lemma_concat_map_all(tasks@, f);
    }
    let mut md = string_of("## ");
    md.append(format_state_name(state).as_str());
    md.append("\n\n");
    md.append(body.as_str());
    md.append("\n");
    md
}

/// Format a list of tasks as markdown, grouped by state: blocking states
/// first (but the initial one), then the initial state, then the other
/// configured states. A state with no task gets no section.
pub fn format_tasks_markdown(tasks: &[(Task, Vec<String>)], states_config: &StatesConfig) -> (r: String)
    requires
        ids_cut_ok(tasks@),
    ensures
        r@ == tasks_markdown(tasks@, *states_config),
{
    let mut md = string_of("# Tasks (");
    md.append(u64_to_dec(tasks.len() as u64).as_str());
    md.append(")\n\n");
    let blocking = &states_config.blocking_states;
    let ghost fb = blocking_section(tasks@, states_config.initial@);
    let mut part = String::new();
    let mut i: usize = 0;
    while i < blocking.len()
        invariant
            i <= blocking@.len(),
            *blocking == states_config.blocking_states,
            ids_cut_ok(tasks@),
            fb == blocking_section(tasks@, states_config.initial@),
            part@ == concat_map(blocking@.take(i as int), fb),
        decreases blocking@.len() - i,
    {
        proof {
            lemma_concat_map_take(blocking@, i as int, fb);
        }
        let piece = if !str_eq(blocking[i].as_str(), states_config.initial.as_str()) {
            section_string(tasks, blocking[i].as_str())
        } else {
            string_of("")
        };
        part.append(piece.as_str());
        i = i + 1;
    }
    proof {
        lemma_concat_map_all(blocking@, fb);
    }
    md.append(part.as_str());
    md.append(section_string(tasks, states_config.initial.as_str()).as_str());
    let names = &states_config.states;
    let ghost fo = other_section(tasks@, *states_config);
    let mut rest = String::new();
    let mut k: usize = 0;
    while k < names.len()
        invariant
            k <= names@.len(),
            *names == states_config.states,
            ids_cut_ok(tasks@),
            fo == other_section(tasks@, *states_config),
            rest@ == concat_map(names@.take(k as int), fo),
        decreases names@.len() - k,
    {
        proof {
            lemma_concat_map_take(names@, k as int, fo);
        }
        let piece = if !states_config.is_blocking_state(names[k].name.as_str())
            && !str_eq(names[k].name.as_str(), states_config.initial.as_str()) {
            section_string(tasks, names[k].name.as_str())
        } else {
            string_of("")
        };
        rest.append(piece.as_str());
        k = k + 1;
    }
    proof {
        lemma_concat_map_all(names@, fo);
    }
    md.append(rest.as_str());
    md
}

/// The tags line of a worker, when it has tags.
pub open spec fn tags_piece(tags: Seq<Seq<char>>) -> Seq<char> {
    if tags.len() > 0 { "- **tags**: "@ + join(tags, ", "@) + "\n"@ } else { ""@ }
}

/// One worker as markdown.
pub open spec fn worker_markdown(w: WorkerInfo) -> Seq<char> {
    "## "@ + w.id@ + "\n"@
        + "- **id**: `"@ + w.id@ + "`\n"@
        + tags_piece(views(w.tags@))
        + "- **claims**: "@ + dec_int(w.claim_count as int) + "/"@ + dec_int(w.max_claims as int) + "\n"@
        + opt_piece(w.current_thought, "- **doing**: "@, "\n"@)
        + "\n"@
}

/// The worker pieces as a function of a worker.
pub open spec fn worker_piece() -> spec_fn(WorkerInfo) -> Seq<char> {
    |w: WorkerInfo| worker_markdown(w)
}

/// Workers as markdown.
pub open spec fn workers_markdown(workers: Seq<WorkerInfo>) -> Seq<char> {
    "# Workers ("@ + dec_nat(workers.len()) + ")\n\n"@ + concat_map(workers, worker_piece())
}

/// A string holding `worker_markdown`.
fn worker_string(w: &WorkerInfo) -> (r: String)
    ensures
        r@ == worker_markdown(*w),
{
    let tags = if w.tags.len() > 0 {
        let mut t = string_of("- **tags**: ");
        t.append(join_strings(w.tags.as_slice(), ", ").as_str());
        t.append("\n");
        t
    } else {
        string_of("")
    };
    let mut md = string_of("## ");
    md.append(w.id.as_str());
    md.append("\n");
    md.append("- **id**: `");
    md.append(w.id.as_str());
    md.append("`\n");
    md.append(tags.as_str());
    md.append("- **claims**: ");
    md.append(i64_to_dec(w.claim_count as i64).as_str());
    md.append("/");
    md.append(i64_to_dec(w.max_claims as i64).as_str());
    md.append("\n");
    md.append(opt_string(&w.current_thought, "- **doing**: ", "\n").as_str());
    md.append("\n");
    md
}

/// Format workers as markdown.
pub fn format_workers_markdown(workers: &[WorkerInfo]) -> (r: String)
    ensures
        r@ == workers_markdown(workers@),
{
    let mut md = string_of("# Workers (");
    md.append(u64_to_dec(workers.len() as u64).as_str());
    md.append(")\n\n");
    let ghost head = md@;
    let ghost f = worker_piece();
    let mut i: usize = 0;
    while i < workers.len()
        invariant
            i <= workers@.len(),
            f == worker_piece(),
            md@ == head + concat_map(workers@.take(i as int), f),
        decreases workers@.len() - i,
    {
        proof {
            lemma_concat_map_take(workers@, i as int, f);
        }
        let piece = worker_string(&workers[i]);
        let ghost before = md@;
        md.append(piece.as_str());
        proof {
            assert(md@ =~= head + concat_map(workers@.take(i + 1), f));
        }
        i = i + 1;
    }
    proof {
        lemma_concat_map_all(workers@, f);
    }
    md
}

/// `x / 1000` rounded toward zero, as integer division in Rust does.
pub open spec fn millis_to_secs(x: int) -> int {
    if x >= 0 { x / 1000 } else { -((-x) / 1000) }
}

/// Milliseconds to whole seconds, rounded toward zero.
fn secs_of_millis(x: i64) -> (r: i64)
    ensures
        r == millis_to_secs(x as int),
{
    if x >= 0 {
        ((x as u64) / 1000) as i64
    } else {
        let m: u64 = (0i128 - (x as i128)) as u64;
        let q: u64 = m / 1000;
        0 - (q as i64)
    }
}

/// One attachment as markdown.
pub open spec fn attachment_markdown(a: AttachmentMeta) -> Seq<char> {
    "## "@ + a.name@ + "\n"@
        + "- **index**: "@ + dec_int(a.order_index as int) + "\n"@
        + "- **mime**: "@ + a.mime_type@ + "\n"@
        + opt_piece(a.file_path, "- **file**: `"@, "`\n"@)
        + "- **created**: "@ + dec_int(millis_to_secs(a.created_at as int)) + "\n"@
        + "\n"@
}

/// The attachment pieces as a function of an attachment.
pub open spec fn attachment_piece() -> spec_fn(AttachmentMeta) -> Seq<char> {
    |a: AttachmentMeta| attachment_markdown(a)
}

/// Attachments as markdown; an empty list says so.
pub open spec fn attachments_markdown(attachments: Seq<AttachmentMeta>) -> Seq<char> {
    if attachments.len() == 0 {
        "# Attachments ("@ + dec_nat(0) + ")\n\n"@ + "_No attachments found._\n"@
    } else {
        "# Attachments ("@ + dec_nat(attachments.len()) + ")\n\n"@ + concat_map(attachments, attachment_piece())
    }
}

/// A string holding `attachment_markdown`.
fn attachment_string(a: &AttachmentMeta) -> (r: String)
    ensures
        r@ == attachment_markdown(*a),
{
    let mut md = string_of("## ");
    md.append(a.name.as_str());
    md.append("\n");
    md.append("- **index**: ");
    md.append(i64_to_dec(a.order_index as i64).as_str());
    md.append("\n");
    md.append("- **mime**: ");
    md.append(a.mime_type.as_str());
    md.append("\n");
    md.append(opt_string(&a.file_path, "- **file**: `", "`\n").as_str());
    md.append("- **created**: ");
    md.append(i64_to_dec(secs_of_millis(a.created_at)).as_str());
    md.append("\n");
    md.append("\n");
    md
}

/// Format attachments as markdown.
pub fn format_attachments_markdown(attachments: &[AttachmentMeta]) -> (r: String)
    ensures
        r@ == attachments_markdown(attachments@),
{
    let mut md = string_of("# Attachments (");
    md.append(u64_to_dec(attachments.len() as u64).as_str());
    md.append(")\n\n");
    if attachments.len() == 0 {
        md.append("_No attachments found._\n");
        return md;
    }
    let ghost head = md@;
    let ghost f = attachment_piece();
    let mut i: usize = 0;
    while i < attachments.len()
        invariant
            i <= attachments@.len(),
            f == attachment_piece(),
            md@ == head + concat_map(attachments@.take(i as int), f),
        decreases attachments@.len() - i,
    {
        proof {
            lemma_concat_map_take(attachments@, i as int, f);
        }
        let piece = attachment_string(&attachments[i]);
        md.append(piece.as_str());
        proof {
            assert(md@ =~= head + concat_map(attachments@.take(i + 1), f));
        }
        i = i + 1;
    }
    proof {
        lemma_concat_map_all(attachments@, f);
    }
    md
}

/// The metadata parts of a task in a tree: its status as given, the priority
/// when it is not the default, the points and the owner, when present.
pub open spec fn meta_parts(t: Task, status: Seq<char>) -> Seq<Seq<char>> {
    let p0 = seq![status];
    let p1 = if t.priority != PRIORITY_DEFAULT { p0.push("P"@ + dec_int(t.priority as int)) } else { p0 };
    let p2 = match t.points { Some(p) => p1.push(dec_int(p as int) + " pts"@), None => p1 };
    match t.owner_agent { Some(o) => p2.push("@"@ + o@), None => p2 }
}

/// The metadata parts of a task, with the status as given.
fn meta_strings(t: &Task, status: String) -> (r: Vec<String>)
    ensures
        views(r@) == meta_parts(*t, status@),
{
    let mut parts: Vec<String> = Vec::new();
    let ghost s = status@;
    parts.push(status);
    proof {
        assert(views(parts@) =~= seq![s]);
    }
    if t.priority != PRIORITY_DEFAULT {
        let mut p = string_of("P");
        p.append(i64_to_dec(t.priority as i64).as_str());
        let ghost before = parts@;
        parts.push(p);
        proof {
            lemma_views_push(before, p);
        }
    }
    match t.points {
        Some(pts) => {
            let mut p = i64_to_dec(pts as i64);
            p.append(" pts");
            let ghost before = parts@;
            parts.push(p);
            proof {
                lemma_views_push(before, p);
            }
        }
        None => {}
    }
    match &t.owner_agent {
        Some(o) => {
            let mut p = string_of("@");
            p.append(o.as_str());
            let ghost before = parts@;
            parts.push(p);
            proof {
                lemma_views_push(before, p);
            }
        }
        None => {}
    }
    parts
}

/// The lines of the first `n` children of a tree level, each drawn after
/// `prefix` with its branch, its title and its metadata, and each followed
/// by the lines of its own children under a longer prefix.
pub open spec fn children_lines(cs: Seq<TaskTree>, n: int, prefix: Seq<char>) -> Seq<char>
    decreases cs, n,
{
    if n <= 0 || n > cs.len() {
        Seq::empty()
    } else {
        let c = cs[n - 1];
        let last = n - 1 == cs.len() - 1;
        let line = prefix + (if last { "└── "@ } else { "├── "@ }) + c.task.title@
            + " ["@ + join(meta_parts(c.task, c.task.status@), ", "@) + "]"@ + "\n"@;
        let sub = if c.children@.len() > 0 {
            children_lines(c.children@, c.children@.len() as int, prefix + (if last { "    "@ } else { "│   "@ }))
        } else {
            ""@
        };
        children_lines(cs, n - 1, prefix) + line + sub
    }
}

/// A task tree as markdown: the root as a heading with its metadata and
/// description, then its descendants drawn as a tree.
pub open spec fn tree_markdown(tree: TaskTree) -> Seq<char> {
    "# "@ + tree.task.title@ + "\n"@
        + "_"@ + join(meta_parts(tree.task, uppercase_of(tree.task.status@)), ", "@) + "_\n"@
        + opt_piece(tree.task.description, "\n"@, "\n"@)
        + (if tree.children@.len() > 0 {
            "\n"@ + children_lines(tree.children@, tree.children@.len() as int, ""@)
        } else {
            ""@
        })
}

/// Format a task tree as markdown with visual tree structure.
pub fn format_task_tree_markdown(tree: &TaskTree) -> (r: String)
    ensures
        r@ == tree_markdown(*tree),
{
    let mut md = string_of("# ");
    md.append(tree.task.title.as_str());
    md.append("\n");
    let parts = meta_strings(&tree.task, to_uppercase(tree.task.status.as_str()));
    md.append("_");
    md.append(join_strings(parts.as_slice(), ", ").as_str());
    md.append("_\n");
    md.append(opt_string(&tree.task.description, "\n", "\n").as_str());
    if tree.children.len() > 0 {
        let mut sub = string_of("\n");
        format_tree_children(tree.children.as_slice(), "", &mut sub);
        md.append(sub.as_str());
    } else {
        proof {
            reveal_strlit("");
            assert(md@ =~= md@ + ""@);
        }
    }
    md
}

/// Recursively format children with tree structure characters.
fn format_tree_children(children: &[TaskTree], prefix: &str, md: &mut String)
    ensures
        final(md)@ == old(md)@ + children_lines(children@, children@.len() as int, prefix@),
    decreases children@,
{
    let count = children.len();
    let ghost start = md@;
    let mut i: usize = 0;
    while i < count
        invariant
            count == children@.len(),
            i <= count,
            md@ == start + children_lines(children@, i as int, prefix@),
        decreases count - i,
    {
        let child = &children[i];
        let is_last = i == count - 1;
        let connector: &str = if is_last { "└── " } else { "├── " };
        let child_prefix: &str = if is_last { "    " } else { "│   " };
        let parts = meta_strings(&child.task, child.task.status.clone());
        let mut line = string_of(prefix);
        line.append(connector);
        line.append(child.task.title.as_str());
        line.append(" [");
        line.append(join_strings(parts.as_slice(), ", ").as_str());
        line.append("]");
        line.append("\n");
        let mut sub = String::new();
        if child.children.len() > 0 {
            let mut deeper = string_of(prefix);
            deeper.append(child_prefix);
            proof {
                assert(decreases_to!(children@ => children@[i as int]));
                assert(decreases_to!(children@[i as int] => children@[i as int].children));
                assert(decreases_to!(children@[i as int].children => children@[i as int].children@));
            }
            format_tree_children(child.children.as_slice(), deeper.as_str(), &mut sub);
        } else {
            proof {
                reveal_strlit("");
                assert(sub@ =~= ""@);
            }
        }
        let ghost before = md@;
        md.append(line.as_str());
        md.append(sub.as_str());
        proof {
            assert(children_lines(children@, i + 1, prefix@) == children_lines(children@, i as int, prefix@) + line@ + sub@);
            assert(md@ =~= start + children_lines(children@, i + 1, prefix@));
        }
        i = i + 1;
    }
}

/// A task in short form for scan results.
pub open spec fn scan_task_short(t: Task) -> Seq<char> {
    "- "@ + priority_marker(t) + t.title@ + " `"@ + short_id(t.id@) + "` ["@ + t.status@ + "]"@
        + opt_piece(t.owner_agent, " @"@, ""@)
        + opt_num_piece(t.points, " ("@, " pts)"@)
        + "\n"@
}

/// The scan pieces as a function of a task.
pub open spec fn scan_piece() -> spec_fn(Task) -> Seq<char> {
    |t: Task| scan_task_short(t)
}

/// A section of related tasks: its heading, its note and the tasks, or
/// nothing when there are none.
pub open spec fn scan_section(tasks: Seq<Task>, head: Seq<char>, note: Seq<char>) -> Seq<char> {
    if tasks.len() > 0 {
        head + dec_nat(tasks.len()) + " tasks)\n"@ + note + concat_map(tasks, scan_piece())
    } else {
        ""@
    }
}

/// Every task ID of the sequence can be cut for display.
pub open spec fn task_ids_cut_ok(tasks: Seq<Task>) -> bool {
    forall|i: int| 0 <= i < tasks.len() ==> id_cut_ok((#[trigger] tasks[i]).id@)
}

/// A scan result as markdown.
pub open spec fn scan_markdown(r: ScanResult) -> Seq<char> {
    "# Scan: "@ + r.root.title@ + "\n"@
        + "- **id**: `"@ + r.root.id@ + "`\n"@
        + "- **status**: "@ + r.root.status@ + "\n"@
        + "- **priority**: "@ + dec_int(r.root.priority as int) + "\n"@
        + opt_piece(r.root.owner_agent, "- **owner**: "@, "\n"@)
        + opt_piece(r.root.description, "\n"@, "\n"@)
        + scan_section(
            r.before@,
            "\n## Before ("@,
            "_Tasks that block this "@ + "task via blocks/follows dependencies_\n\n"@,
        )
        + scan_section(
            r.after@,
            "\n## After ("@,
            "_Tasks that this "@ + "task blocks via blocks/follows dependencies_\n\n"@,
        )
        + scan_section(
            r.above@,
            "\n## Above ("@,
            "_Parent chain via contains dependency_\n\n"@,
        )
        + scan_section(
            r.below@,
            "\n## Below ("@,
            "_Descendants via contains dependency_\n\n"@,
        )
        + "\n---\n**Total related tasks**: "@ + dec_nat(r.before@.len() + r.after@.len() + r.above@.len() + r.below@.len()) + "\n"@
}

/// Format a task in short form for scan results.
fn format_scan_task_short(task: &Task) -> (r: String)
    requires
        id_cut_ok(task.id@),
    ensures
        r@ == scan_task_short(*task),
{
    let marker: &str = if task.priority > 0 { "!!! " } else { "" };
    let mut md = string_of("- ");
    md.append(marker);
    md.append(task.title.as_str());
    md.append(" `");
    md.append(short_task_id(task.id.as_str()));
    md.append("` [");
    md.append(task.status.as_str());
    md.append("]");
    md.append(opt_string(&task.owner_agent, " @", "").as_str());
    md.append(opt_num_string(task.points, " (", " pts)").as_str());
    md.append("\n");
    md
}

/// A string holding `scan_section`.
fn scan_section_string(tasks: &Vec<Task>, head: &str, note: &str) -> (r: String)
    requires
        task_ids_cut_ok(tasks@),
    ensures
        r@ == scan_section(tasks@, head@, note@),
{
    if tasks.len() == 0 {
        return string_of("");
    }
    let mut md = string_of(head);
    md.append(u64_to_dec(tasks.len() as u64).as_str());
    md.append(" tasks)\n");
    md.append(note);
    let ghost start = md@;
    let ghost f = scan_piece();
    let mut i: usize = 0;
    while i < tasks.len()
        invariant
            i <= tasks@.len(),
            task_ids_cut_ok(tasks@),
            f == scan_piece(),
            md@ == start + concat_map(tasks@.take(i as int), f),
        decreases tasks@.len() - i,
    {
        proof {
            lemma_concat_map_take(tasks@, i as int, f);
            assert(id_cut_ok(tasks@[i as int].id@));
        }
        let piece = format_scan_task_short(&tasks[i]);
        md.append(piece.as_str());
        proof {
            assert(md@ =~= start + concat_map(tasks@.take(i + 1), f));
        }
        i = i + 1;
    }
    proof {
        lemma_concat_map_all(tasks@, f);
    }
    md
}

/// Format a scan result as markdown.
pub fn format_scan_result_markdown(result: &ScanResult) -> (r: String)
    requires
        task_ids_cut_ok(result.before@),
        task_ids_cut_ok(result.after@),
        task_ids_cut_ok(result.above@),
        task_ids_cut_ok(result.below@),
        result.before@.len() + result.after@.len() + result.above@.len() + result.below@.len() <= u64::MAX,
    ensures
        r@ == scan_markdown(*result),
{
    let mut md = string_of("# Scan: ");
    md.append(result.root.title.as_str());
    md.append("\n");
    md.append("- **id**: `");
    md.append(result.root.id.as_str());
    md.append("`\n");
    md.append("- **status**: ");
    md.append(result.root.status.as_str());
    md.append("\n");
    md.append("- **priority**: ");
    md.append(i64_to_dec(result.root.priority as i64).as_str());
    md.append("\n");
    md.append(opt_string(&result.root.owner_agent, "- **owner**: ", "\n").as_str());
    md.append(opt_string(&result.root.description, "\n", "\n").as_str());
    let mut before_note = string_of("_Tasks that block this ");
    before_note.append("task via blocks/follows dependencies_\n\n");
    let mut after_note = string_of("_Tasks that this ");
    after_note.append("task blocks via blocks/follows dependencies_\n\n");
    md.append(
        scan_section_string(
            &result.before,
            "\n## Before (",
            before_note.as_str(),
        ).as_str(),
    );
    md.append(
        scan_section_string(
            &result.after,
            "\n## After (",
            after_note.as_str(),
        ).as_str(),
    );
    md.append(
        scan_section_string(
            &result.above,
            "\n## Above (",
            "_Parent chain via contains dependency_\n\n",
        ).as_str(),
    );
    md.append(
        scan_section_string(
            &result.below,
            "\n## Below (",
            "_Descendants via contains dependency_\n\n",
        ).as_str(),
    );
    let total: u64 = result.before.len() as u64 + result.after.len() as u64 + result.above.len() as u64
        + result.below.len() as u64;
    md.append("\n---\n**Total related tasks**: ");
    md.append(u64_to_dec(total).as_str());
    md.append("\n");
    md
}

/// The longest title, in characters, that a task takes from its
/// description.
pub const TITLE_MAX_CHARS: usize = 100;

/// The title taken from a description: the description itself when it is
/// short enough, otherwise its first characters followed by `...`, the
/// whole at most `TITLE_MAX_CHARS` characters long.
pub open spec fn truncated_title(description: Seq<char>) -> Seq<char> {
    if description.len() <= TITLE_MAX_CHARS {
        description
    } else {
        description.take(TITLE_MAX_CHARS - 3) + "..."@
    }
}

/// A title for a task that has only a description (see `truncated_title`).
pub fn truncate_title(description: &str) -> (r: String)
    ensures
        r@ == truncated_title(description@),
{
    let n = description.unicode_len();
    if n <= TITLE_MAX_CHARS {
        return string_of(description);
    }
    let keep: usize = TITLE_MAX_CHARS - 3;
    let mut s = String::new();
    let mut i: usize = 0;
    while i < keep
        invariant
            n == description@.len(),
            keep < n,
            i <= keep,
            s@ == description@.take(i as int),
        decreases keep - i,
    {
        push_char(&mut s, description.get_char(i));
        proof {
            assert(description@.take(i + 1) =~= description@.take(i as int).push(description@[i as int]));
        }
        i = i + 1;
    }
    s.append("...");
    s
}

} // verus!
