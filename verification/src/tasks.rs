//! Task queries: list filters, ordering, the options for creating a task
//! tree, and the checks of a task rename.

use vstd::prelude::*;
use crate::text::{str_eq, string_of};
use crate::types::{StatesConfig, TaskTreeInput};
use crate::ids::IdsConfig;

verus! {

/// Options for creating a task tree from nested input.
#[derive(Debug)]
pub struct CreateTreeOptions<'a> {
    pub input: TaskTreeInput,
    pub parent_id: Option<String>,
    pub child_type: Option<String>,
    pub sibling_type: Option<String>,
    pub states_config: &'a StatesConfig,
    pub ids_config: &'a IdsConfig,
}

/// Query parameters for listing tasks with optional filters.
#[derive(Debug, Default)]
pub struct ListTasksQuery<'a> {
    pub status: Option<&'a str>,
    pub phase: Option<&'a str>,
    pub owner: Option<&'a str>,
    pub parent_id: Option<Option<&'a str>>,
    pub limit: Option<i32>,
    pub offset: i32,
    pub sort_by: Option<&'a str>,
    pub sort_order: Option<&'a str>,
}

/// The column a task list is sorted by.
pub open spec fn order_field(sort_by: Option<Seq<char>>) -> Seq<char> {
    match sort_by {
        Some(s) => if s == "priority"@ {
            "CAST(t.priority AS INTEGER)"@
        } else if s == "updated_at"@ {
            "t.updated_at"@
        } else {
            "t.created_at"@
        },
        None => "t.created_at"@,
    }
}

/// The sort direction: `ASC` when asked for, `DESC` otherwise.
pub open spec fn order_direction(sort_order: Option<Seq<char>>) -> Seq<char> {
    match sort_order {
        Some(o) => if o == "asc"@ { "ASC"@ } else { "DESC"@ },
        None => "DESC"@,
    }
}

/// The view of an optional string slice.
pub open spec fn opt_str_view(o: Option<&str>) -> Option<Seq<char>> {
    match o {
        Some(s) => Some(s@),
        None => None,
    }
}

/// Build an ORDER BY clause from sort_by and sort_order parameters:
/// `<column> <direction>`, from a fixed set of columns.
pub fn build_order_clause(sort_by: Option<&str>, sort_order: Option<&str>) -> (r: String)
    ensures
        r@ == order_field(opt_str_view(sort_by)) + " "@ + order_direction(opt_str_view(sort_order)),
{
    proof {
        reveal_strlit("priority");
        reveal_strlit("created_at");
        reveal_strlit("updated_at");
        reveal_strlit("asc");
        reveal_strlit("desc");
        assert("created_at"@[0] != "updated_at"@[0]);
        assert("created_at"@.len() != "priority"@.len());
        assert("updated_at"@.len() != "priority"@.len());
        assert("asc"@.len() != "desc"@.len());
    }
    let field: &str = match sort_by {
        Some(s) => if str_eq(s, "priority") {
            "CAST(t.priority AS INTEGER)"
        } else if str_eq(s, "created_at") {
            "t.created_at"
        } else if str_eq(s, "updated_at") {
            "t.updated_at"
        } else {
            "t.created_at"
        },
        None => "t.created_at",
    };
    let order: &str = match sort_order {
        Some(o) => if str_eq(o, "asc") {
            "ASC"
        } else if str_eq(o, "desc") {
            "DESC"
        } else {
            "DESC"
        },
        None => "DESC",
    };
    let mut r = string_of(field);
    r.append(" ");
    r.append(order);
    r
}

/// Why renaming the task `old_id` to `new_id` is refused, if it is: the new
/// ID is empty or over 64 bytes, the task does not exist, or the new ID is
/// taken.
pub open spec fn rename_refusal(old_id: Seq<char>, new_id: Seq<char>, new_id_bytes: nat, old_exists: bool, new_exists: bool) -> Option<
    Seq<char>,
> {
    if new_id.len() == 0 {
        Some("new_id must not be empty"@)
    } else if new_id_bytes > 64 {
        Some("new_id must not exceed 64 characters"@)
    } else if !old_exists {
        Some("Task '"@ + old_id + "' not found"@)
    } else if new_exists {
        Some("Task '"@ + new_id + "' already exists"@)
    } else {
        None
    }
}

/// Checks a rename of the task `old_id` to `new_id`, given whether a task
/// with each ID exists; the error is the message of the refusal.
pub fn check_rename(old_id: &str, new_id: &str, old_exists: bool, new_exists: bool) -> (r: Result<(), String>)
    ensures
        match r {
            Ok(()) => rename_refusal(old_id@, new_id@, new_id.len() as nat, old_exists, new_exists) is None,
            Err(m) => rename_refusal(old_id@, new_id@, new_id.len() as nat, old_exists, new_exists) == Some(m@),
        },
{
    if new_id.is_empty() {
        return Err(string_of("new_id must not be empty"));
    }
    if new_id.len() > 64 {
        return Err(string_of("new_id must not exceed 64 characters"));
    }
    if !old_exists {
        let mut m = string_of("Task '");
        m.append(old_id);
        m.append("' not found");
        return Err(m);
    }
    if new_exists {
        let mut m = string_of("Task '");
        m.append(new_id);
        m.append("' already exists");
        return Err(m);
    }
    Ok(())
}

/// The (table, column) pairs that hold a task ID and change when a task is
/// renamed, in the order they are updated.
pub fn renamed_columns() -> (r: Vec<(&'static str, &'static str)>)
    ensures
        r@.len() == 9,
        r@[0] == ("tasks", "id"),
        r@[1] == ("attachments", "task_id"),
        r@[2] == ("dependencies", "from_task_id"),
        r@[3] == ("dependencies", "to_task_id"),
        r@[4] == ("file_locks", "task_id"),
        r@[5] == ("task_tags", "task_id"),
        r@[6] == ("task_needed_tags", "task_id"),
        r@[7] == ("task_wanted_tags", "task_id"),
        r@[8] == ("task_sequence", "task_id"),
{
    vec![
        ("tasks", "id"),
        ("attachments", "task_id"),
        ("dependencies", "from_task_id"),
        ("dependencies", "to_task_id"),
        ("file_locks", "task_id"),
        ("task_tags", "task_id"),
        ("task_needed_tags", "task_id"),
        ("task_wanted_tags", "task_id"),
        ("task_sequence", "task_id"),
    ]
}

} // verus!
