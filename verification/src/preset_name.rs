//! One rule: a preset's filename stem must equal the `name` it declares.
use crate::text::{owned, push_str, str_eq};
use vstd::prelude::*;

verus! {

/// Why a preset whose file is `stem` and whose declared name is `declared`
/// is not a preset: said for whoever has to fix the file.
pub open spec fn mismatch_reason(stem: Seq<char>, declared: Seq<char>) -> Seq<char> {
    if declared.len() == 0 {
        "declares no `name` — it has to be `name = \""@ + stem + "\"`, matching the filename"@
    } else {
        "declares `name = \""@ + declared + "\"` but its filename says `"@ + stem
            + "` — a preset is named by its file, so the two have to agree"@
    }
}

/// `Ok` when a preset's declared `name` matches the filename stem it was found
/// under; otherwise the reason they disagree.
pub fn check(stem: &str, declared: &str) -> (r: Result<(), String>)
    ensures
        r is Ok <==> declared@ == stem@,
        r matches Err(reason) ==> reason@ == mismatch_reason(stem@, declared@),
{
    if str_eq(declared, stem) {
        Ok(())
    } else if declared.is_empty() {
        let mut m = owned("declares no `name` — it has to be `name = \"");
        push_str(&mut m, stem);
        push_str(&mut m, "\"`, matching the filename");
        Err(m)
    } else {
        let mut m = owned("declares `name = \"");
        push_str(&mut m, declared);
        push_str(&mut m, "\"` but its filename says `");
        push_str(&mut m, stem);
        push_str(&mut m, "` — a preset is named by its file, so the two have to agree");
        Err(m)
    }
}

} // verus!
