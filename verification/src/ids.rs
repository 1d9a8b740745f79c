//! Generation of human-readable task and worker IDs and the clock they
//! fall back on.

use vstd::prelude::*;
use petname::Generator;
use crate::text::{dec_int, append_dec, string_of};
use crate::task_list::split_on;

verus! {

/// How task IDs are generated.
#[derive(Debug, Clone, Copy)]
pub struct IdsConfig {
    /// Number of words in a generated task ID.
    pub task_id_words: u8,
    /// Number of words in a generated worker ID.
    pub agent_id_words: u8,
}

/// The current time in milliseconds since the Unix epoch.
///
/// Calls `chrono::Utc::now().timestamp_millis()`; it depends on the clock,
/// so nothing is stated of it.
#[verifier::external_body]
pub fn now_ms() -> i64 {
    chrono::Utc::now().timestamp_millis()
}

/// The text is `words` non-empty words joined by hyphens.
pub open spec fn petname_shape(s: Seq<char>, words: u8) -> bool {
    let parts = split_on(s, '-');
    &&& parts.len() == words
    &&& forall|i: int| 0 <= i < parts.len() ==> (#[trigger] parts[i]).len() > 0
}

/// A random petname of `words` words from the medium word lists, joined by
/// hyphens.
///
/// Calls `petname::Petnames::medium().generate_one(words, "-")`. Its source
/// picks one word per requested word (adverbs, then an adjective, then a
/// noun) from lists that are not empty and whose words are non-empty and
/// hold no hyphen, and returns `None` exactly when the joined name is empty,
/// that is when no word is asked for. Which words come out is left to chance
/// and unsaid.
#[verifier::external_body]
fn petname_medium(words: u8) -> (r: Option<String>)
    ensures
        words == 0 ==> r is None,
        words > 0 ==> r is Some && petname_shape(r->0@, words),
{
    petname::Petnames::medium().generate_one(words, "-")
}

/// The fallback ID used when no petname can be made: `task-` and the time in
/// milliseconds.
pub open spec fn fallback_task_id(ms: int) -> Seq<char> {
    "task-"@ + dec_int(ms)
}

/// A new task ID: a petname of the configured number of words, or
/// `task-<milliseconds>` when no petname can be made (zero words).
pub fn generate_task_id(ids_config: &IdsConfig) -> (r: String)
    ensures
        r@.len() > 0,
        ids_config.task_id_words > 0 ==> petname_shape(r@, ids_config.task_id_words),
        ids_config.task_id_words == 0 ==> exists|ms: i64| r@ == fallback_task_id(ms as int),
{
    match petname_medium(ids_config.task_id_words) {
        Some(name) => {
            proof {
                let parts = split_on(name@, '-');
                assert(parts[0].len() > 0);
                if name@.len() == 0 {
                    assert(parts == seq![Seq::<char>::empty()]);
                }
            }
            name
        },
        None => {
            let ms = now_ms();
            let mut s = string_of("task-");
            append_dec(&mut s, ms);
            proof {
                reveal_strlit("task-");
                assert(s@ == fallback_task_id(ms as int));
            }
            s
        }
    }
}

/// The fallback ID used when no petname can be made for a worker:
/// `worker-` and the time in milliseconds.
pub open spec fn fallback_worker_id(ms: int) -> Seq<char> {
    "worker-"@ + dec_int(ms)
}

/// A new worker ID: a petname of the configured number of words, or
/// `worker-<milliseconds>` when no petname can be made (zero words).
pub fn generate_agent_id(ids_config: &IdsConfig) -> (r: String)
    ensures
        r@.len() > 0,
        ids_config.agent_id_words > 0 ==> petname_shape(r@, ids_config.agent_id_words),
        ids_config.agent_id_words == 0 ==> exists|ms: i64| r@ == fallback_worker_id(ms as int),
{
    match petname_medium(ids_config.agent_id_words) {
        Some(name) => {
            proof {
                let parts = split_on(name@, '-');
                assert(parts[0].len() > 0);
                if name@.len() == 0 {
                    assert(parts == seq![Seq::<char>::empty()]);
                }
            }
            name
        },
        None => {
            let ms = now_ms();
            let mut s = string_of("worker-");
            append_dec(&mut s, ms);
            proof {
                reveal_strlit("worker-");
                assert(s@ == fallback_worker_id(ms as int));
            }
            s
        }
    }
}

} // verus!
