//! Starter content for a freshly scaffolded site.

use vstd::prelude::*;

use crate::strings::{chars_of, replace_all, replace_all_exec, string_of};

verus! {

/// The example post with `today` filled into each `{date}` placeholder of its
/// template.
pub fn starter_post(template: &str, today: &str) -> (res: String)
    ensures
        res@ == replace_all(template@, "{date}"@, today@),
{
    proof {
        reveal_strlit("{date}");
    }
    let out = replace_all_exec(&chars_of(template), &chars_of("{date}"), &chars_of(today));
    string_of(&out)
}

} // verus!
