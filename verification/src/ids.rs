//! Fresh task identifiers, drawn from a random generator.

use vstd::prelude::*;

use crate::text::starts_with_seq;

verus! {

/// Relies on `uuid::Uuid::new_v4` for a fresh collision-resistant
/// identifier, rendered in its hyphenated 36-ASCII-character form.
#[verifier::external_body]
fn fresh_uuid() -> (r: String)
    ensures
        r@.len() == 36,
{
    uuid::Uuid::new_v4().to_string()
}

/// A fresh task identifier: a random identifier under the task prefix.
pub fn fresh_task_id() -> (r: String)
    ensures
        r@.len() == 41,
        starts_with_seq(r@, "task-"@),
{
    proof {
        reveal_strlit("task-");
        assert("task-"@.len() == 5);
    }
    let mut s = "task-".to_owned();
    let u = fresh_uuid();
    s.append(u.as_str());
    proof {
        assert(s@.subrange(0, 5) =~= "task-"@);
    }
    s
}

} // verus!
